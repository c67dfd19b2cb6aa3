//! Character-level text operations on sequences of `char`, with their
//! mathematical meaning stated over `Seq<char>`.
use vstd::prelude::*;

verus! {

broadcast use vstd::string::group_string_axioms;

// ---------------------------------------------------------------------
// Specifications
// ---------------------------------------------------------------------
/// `needle` occurs in `hay` starting at position `i`.
pub open spec fn occurs_at(hay: Seq<char>, needle: Seq<char>, i: int) -> bool {
    0 <= i && i + needle.len() <= hay.len() && hay.subrange(i, i + needle.len()) == needle
}

/// `needle` occurs somewhere in `hay` (the empty needle occurs everywhere).
pub open spec fn contains(hay: Seq<char>, needle: Seq<char>) -> bool {
    exists|i: int| occurs_at(hay, needle, i)
}

pub open spec fn starts_with(s: Seq<char>, p: Seq<char>) -> bool {
    occurs_at(s, p, 0)
}

pub open spec fn ends_with(s: Seq<char>, p: Seq<char>) -> bool {
    occurs_at(s, p, s.len() - p.len())
}

/// The position of the first occurrence of `needle` in `hay`.
#[verifier::opaque]
pub open spec fn first_occurrence(hay: Seq<char>, needle: Seq<char>) -> Option<int> {
    if contains(hay, needle) {
        Some(
            choose|i: int|
                occurs_at(hay, needle, i) && forall|j: int| 0 <= j < i ==> !occurs_at(hay, needle, j),
        )
    } else {
        None
    }
}

/// The position of the last occurrence of `needle` in `hay`.
#[verifier::opaque]
pub open spec fn last_occurrence(hay: Seq<char>, needle: Seq<char>) -> Option<int> {
    if contains(hay, needle) {
        Some(
            choose|i: int|
                occurs_at(hay, needle, i) && forall|j: int|
                    i < j <= hay.len() ==> !occurs_at(hay, needle, j),
        )
    } else {
        None
    }
}

/// Unicode `White_Space`, the property that `char::is_whitespace` tests.
pub open spec fn is_space(c: char) -> bool {
    ||| c == '\t'
    ||| c == '\n'
    ||| c == '\u{0B}'
    ||| c == '\u{0C}'
    ||| c == '\r'
    ||| c == ' '
    ||| c == '\u{85}'
    ||| c == '\u{A0}'
    ||| c == '\u{1680}'
    ||| ('\u{2000}' <= c && c <= '\u{200A}')
    ||| c == '\u{2028}'
    ||| c == '\u{2029}'
    ||| c == '\u{202F}'
    ||| c == '\u{205F}'
    ||| c == '\u{3000}'
}

/// `s` without its leading white space.
pub open spec fn trim_start(s: Seq<char>) -> Seq<char>
    decreases s.len(),
{
    if s.len() > 0 && is_space(s[0]) {
        trim_start(s.drop_first())
    } else {
        s
    }
}

/// `s` without its trailing white space.
pub open spec fn trim_end(s: Seq<char>) -> Seq<char>
    decreases s.len(),
{
    if s.len() > 0 && is_space(s.last()) {
        trim_end(s.drop_last())
    } else {
        s
    }
}

/// `s` without leading and trailing white space.
pub open spec fn trim(s: Seq<char>) -> Seq<char> {
    trim_end(trim_start(s))
}

/// The pieces of `s` between the occurrences of `sep` (as `str::split` with a
/// `char` pattern): always at least one piece.
pub open spec fn split(s: Seq<char>, sep: char) -> Seq<Seq<char>>
    decreases s.len(),
{
    if s.len() == 0 {
        seq![Seq::<char>::empty()]
    } else {
        let rest = split(s.drop_last(), sep);
        if s.last() == sep {
            rest.push(Seq::<char>::empty())
        } else {
            rest.update(rest.len() - 1, rest.last().push(s.last()))
        }
    }
}

/// The lines of `s` as `str::lines` gives them: split at each `'\n'`, a
/// `'\r'` just before a `'\n'` removed, and no empty line after a final
/// line ending.
pub open spec fn lines(s: Seq<char>) -> Seq<Seq<char>> {
    let pieces = split(s, '\n');
    let ended = pieces.drop_last().map_values(|l: Seq<char>| strip_cr(l));
    if pieces.last().len() == 0 {
        ended
    } else {
        ended.push(pieces.last())
    }
}

pub open spec fn strip_cr(l: Seq<char>) -> Seq<char> {
    if l.len() > 0 && l.last() == '\r' {
        l.drop_last()
    } else {
        l
    }
}

/// The items of `parts` joined by `sep`.
pub open spec fn join(parts: Seq<Seq<char>>, sep: Seq<char>) -> Seq<char>
    decreases parts.len(),
{
    if parts.len() == 0 {
        Seq::<char>::empty()
    } else if parts.len() == 1 {
        parts[0]
    } else {
        join(parts.drop_last(), sep) + sep + parts.last()
    }
}

/// The digit character of `d`, for `d < 10`.
pub open spec fn digit_char(d: nat) -> char {
    if d == 0 {
        '0'
    } else if d == 1 {
        '1'
    } else if d == 2 {
        '2'
    } else if d == 3 {
        '3'
    } else if d == 4 {
        '4'
    } else if d == 5 {
        '5'
    } else if d == 6 {
        '6'
    } else if d == 7 {
        '7'
    } else if d == 8 {
        '8'
    } else {
        '9'
    }
}

/// The decimal numeral of `n`, without leading zeros.
pub open spec fn decimal(n: nat) -> Seq<char>
    decreases n,
{
    if n < 10 {
        seq![digit_char(n)]
    } else {
        decimal(n / 10).push(digit_char(n % 10))
    }
}

/// The number of bytes of the UTF-8 encoding of `c`.
pub open spec fn utf8_width(c: char) -> nat {
    if (c as u32) < 0x80 {
        1
    } else if (c as u32) < 0x800 {
        2
    } else if (c as u32) < 0x10000 {
        3
    } else {
        4
    }
}

/// The number of bytes of the UTF-8 encoding of `s` (what `str::len` gives).
pub open spec fn utf8_len(s: Seq<char>) -> nat
    decreases s.len(),
{
    if s.len() == 0 {
        0
    } else {
        utf8_len(s.drop_last()) + utf8_width(s.last())
    }
}

// ---------------------------------------------------------------------
// Trusted: std functions vstd leaves without specification
// ---------------------------------------------------------------------
/// What `str::to_lowercase` returns for a string with the given characters.
pub uninterp spec fn lowercase(s: Seq<char>) -> Seq<char>;

/// Whether `c` is an ASCII character.
pub open spec fn is_ascii_char(c: char) -> bool {
    (c as u32) < 0x80
}

/// Whether `c` is an ASCII capital letter, `A` to `Z`.
pub open spec fn ascii_upper(c: char) -> bool {
    0x41 <= (c as u32) <= 0x5A
}

/// `c` with an ASCII capital letter made small.
pub open spec fn ascii_lower(c: char) -> char {
    if ascii_upper(c) {
        ((c as u32) + 0x20) as char
    } else {
        c
    }
}

/// Whether `char::is_uppercase` holds of a character (Unicode `Uppercase`).
pub uninterp spec fn uppercase_char(c: char) -> bool;

/// What hashing a string with std's `DefaultHasher`, created by `new`,
/// gives: a fixed function of the string's contents within one build.
pub uninterp spec fn text_hash_of(s: Seq<char>) -> u64;

/// Hashes `s` with std's `DefaultHasher` (through `BuildHasher::hash_one` on
/// `BuildHasherDefault`, which starts from `DefaultHasher::new()`); the
/// result is named `text_hash_of` of the characters.
#[verifier::external_body]
pub(crate) fn stable_hash(s: &str) -> (r: u64)
    ensures
        r == text_hash_of(s@),
{
    std::hash::BuildHasher::hash_one(
        &std::hash::BuildHasherDefault::<std::collections::hash_map::DefaultHasher>::default(),
        s,
    )
}

/// Calls `str::to_lowercase`; the result is named `lowercase` of the input's
/// characters. Of an ASCII text it makes each capital letter small and
/// keeps every other character.
#[verifier::external_body]
pub(crate) fn to_lowercase(s: &str) -> (r: String)
    ensures
        r@ == lowercase(s@),
        (forall|i: int| 0 <= i < s@.len() ==> is_ascii_char(#[trigger] s@[i])) ==> r@ == s@.map_values(
            |c: char| ascii_lower(c),
        ),
{
    s.to_lowercase()
}

/// Calls `char::is_uppercase`; the result is named `uppercase_char`. Among
/// ASCII characters, exactly `A` to `Z` are upper case.
#[verifier::external_body]
pub(crate) fn is_uppercase(c: char) -> (r: bool)
    ensures
        r == uppercase_char(c),
        is_ascii_char(c) ==> (r == ascii_upper(c)),
{
    c.is_uppercase()
}

/// Calls `String::push`, which appends one character.
#[verifier::external_body]
pub(crate) fn push_char(s: &mut String, c: char)
    ensures
        final(s)@ == old(s)@.push(c),
{
    s.push(c)
}

// ---------------------------------------------------------------------
// Executable operations
// ---------------------------------------------------------------------
/// The characters of `s`, in order.
pub fn chars_of(s: &str) -> (v: Vec<char>)
    ensures
        v@ == s@,
{
    let mut v: Vec<char> = Vec::new();
    for c in it: s.chars()
        invariant
            v@ == it.seq().take(it.index() as int),
    {
        v.push(c);
    }
    assert(v@ == s@);
    v
}

/// A `String` holding the characters `cs[from..to]`.
pub fn string_of(cs: &Vec<char>, from: usize, to: usize) -> (s: String)
    requires
        from <= to <= cs@.len(),
    ensures
        s@ == cs@.subrange(from as int, to as int),
{
    let mut s = String::new();
    let mut i = from;
    while i < to
        invariant
            from <= i <= to <= cs@.len(),
            s@ == cs@.subrange(from as int, i as int),
        decreases to - i,
    {
        push_char(&mut s, cs[i]);
        assert(cs@.subrange(from as int, i + 1) == cs@.subrange(from as int, i as int).push(cs@[i as int]));
        i = i + 1;
    }
    s
}

/// A `String` holding all of `cs`.
pub fn string_of_all(cs: &Vec<char>) -> (s: String)
    ensures
        s@ == cs@,
{
    let s = string_of(cs, 0, cs.len());
    assert(cs@.subrange(0, cs@.len() as int) == cs@);
    s
}

/// Whether `needle` occurs in `hay` at position `i`.
pub fn occurs_at_exec(hay: &Vec<char>, needle: &Vec<char>, i: usize) -> (r: bool)
    ensures
        r == occurs_at(hay@, needle@, i as int),
{
    if i > hay.len() || needle.len() > hay.len() - i {
        return false;
    }
    let hl = hay.len();
    let mut k: usize = 0;
    while k < needle.len()
        invariant
            hl == hay@.len(),
            i + needle@.len() <= hay@.len(),
            k <= needle@.len(),
            forall|m: int| 0 <= m < k ==> hay@[i + m] == needle@[m],
        decreases needle.len() - k,
    {
        assert(i + k < hay@.len());
        if hay[i + k] != needle[k] {
            assert(hay@.subrange(i as int, i + needle@.len())[k as int] != needle@[k as int]);
            return false;
        }
        k = k + 1;
    }
    assert(hay@.subrange(i as int, i + needle@.len()) =~= needle@);
    true
}

proof fn lemma_first_occurrence(hay: Seq<char>, needle: Seq<char>, i: int)
    requires
        occurs_at(hay, needle, i),
        forall|j: int| 0 <= j < i ==> !occurs_at(hay, needle, j),
    ensures
        first_occurrence(hay, needle) == Some(i),
{
    reveal(first_occurrence);
    assert(contains(hay, needle));
    let w = choose|w: int|
        occurs_at(hay, needle, w) && forall|j: int| 0 <= j < w ==> !occurs_at(hay, needle, j);
    assert(occurs_at(hay, needle, w) && forall|j: int| 0 <= j < w ==> !occurs_at(hay, needle, j));
    if w < i {
        assert(!occurs_at(hay, needle, w));
    }
    if w > i {
        assert(!occurs_at(hay, needle, i));
    }
}

proof fn lemma_last_occurrence(hay: Seq<char>, needle: Seq<char>, i: int)
    requires
        occurs_at(hay, needle, i),
        forall|j: int| i < j <= hay.len() ==> !occurs_at(hay, needle, j),
    ensures
        last_occurrence(hay, needle) == Some(i),
{
    reveal(last_occurrence);
    assert(contains(hay, needle));
    let w = choose|w: int|
        occurs_at(hay, needle, w) && forall|j: int| w < j <= hay.len() ==> !occurs_at(hay, needle, j);
    assert(occurs_at(hay, needle, w) && forall|j: int| w < j <= hay.len() ==> !occurs_at(hay, needle, j));
    if w > i {
        assert(!occurs_at(hay, needle, w));
    }
    if w < i {
        assert(!occurs_at(hay, needle, i));
    }
}

/// The first position at which `needle` occurs in `hay`.
pub fn find(hay: &Vec<char>, needle: &Vec<char>) -> (r: Option<usize>)
    ensures
        r matches Some(i) ==> first_occurrence(hay@, needle@) == Some(i as int) && occurs_at(hay@, needle@, i as int),
        r is None ==> first_occurrence(hay@, needle@) is None,
        r is Some <==> contains(hay@, needle@),
{
    find_from(hay, needle, 0)
}

/// The first position at or after `from` at which `needle` occurs in `hay`.
pub fn find_from(hay: &Vec<char>, needle: &Vec<char>, from: usize) -> (r: Option<usize>)
    requires
        from <= hay@.len(),
        forall|j: int| 0 <= j < from ==> !occurs_at(hay@, needle@, j),
    ensures
        r matches Some(i) ==> first_occurrence(hay@, needle@) == Some(i as int) && i >= from && occurs_at(hay@, needle@, i as int),
        r is None ==> first_occurrence(hay@, needle@) is None,
        r is Some <==> contains(hay@, needle@),
{
    let mut i = from;
    loop
        invariant
            from <= i <= hay@.len(),
            forall|j: int| 0 <= j < i ==> !occurs_at(hay@, needle@, j),
        decreases hay.len() - i,
    {
        if occurs_at_exec(hay, needle, i) {
            proof {
                lemma_first_occurrence(hay@, needle@, i as int);
            }
            return Some(i);
        }
        if i == hay.len() {
            assert forall|j: int| !occurs_at(hay@, needle@, j) by {
                if 0 <= j < i {
                }
            }
            proof {
                reveal(first_occurrence);
            }
            return None;
        }
        i = i + 1;
    }
}

/// The last position at which `needle` occurs in `hay`.
pub fn rfind(hay: &Vec<char>, needle: &Vec<char>) -> (r: Option<usize>)
    ensures
        r matches Some(i) ==> last_occurrence(hay@, needle@) == Some(i as int) && occurs_at(hay@, needle@, i as int),
        r is None ==> last_occurrence(hay@, needle@) is None,
        r is Some <==> contains(hay@, needle@),
{
    let mut i = hay.len();
    loop
        invariant
            i <= hay@.len(),
            forall|j: int| i < j <= hay@.len() ==> !occurs_at(hay@, needle@, j),
        decreases i,
    {
        if occurs_at_exec(hay, needle, i) {
            proof {
                lemma_last_occurrence(hay@, needle@, i as int);
            }
            return Some(i);
        }
        if i == 0 {
            assert forall|j: int| !occurs_at(hay@, needle@, j) by {
                if 0 < j <= hay@.len() {
                }
            }
            proof {
                reveal(last_occurrence);
            }
            return None;
        }
        i = i - 1;
    }
}

/// Whether `needle` occurs in `hay`.
pub fn contains_exec(hay: &Vec<char>, needle: &Vec<char>) -> (r: bool)
    ensures
        r == contains(hay@, needle@),
{
    find(hay, needle).is_some()
}

/// Whether the text `hay` contains the text `needle`.
pub fn str_contains(hay: &str, needle: &str) -> (r: bool)
    ensures
        r == contains(hay@, needle@),
{
    let h = chars_of(hay);
    let n = chars_of(needle);
    contains_exec(&h, &n)
}

/// Whether `s` starts with `p`.
pub fn starts_with_exec(s: &Vec<char>, p: &Vec<char>) -> (r: bool)
    ensures
        r == starts_with(s@, p@),
{
    occurs_at_exec(s, p, 0)
}

/// Whether `s` ends with `p`.
pub fn ends_with_exec(s: &Vec<char>, p: &Vec<char>) -> (r: bool)
    ensures
        r == ends_with(s@, p@),
{
    if p.len() > s.len() {
        false
    } else {
        occurs_at_exec(s, p, s.len() - p.len())
    }
}

/// Whether the text `s` starts with the text `p`.
pub fn str_starts_with(s: &str, p: &str) -> (r: bool)
    ensures
        r == starts_with(s@, p@),
{
    starts_with_exec(&chars_of(s), &chars_of(p))
}

/// Whether the text `s` ends with the text `p`.
pub fn str_ends_with(s: &str, p: &str) -> (r: bool)
    ensures
        r == ends_with(s@, p@),
{
    ends_with_exec(&chars_of(s), &chars_of(p))
}

/// Whether two texts are equal.
pub fn str_eq(a: &str, b: &str) -> (r: bool)
    ensures
        r == (a@ == b@),
{
    let x = chars_of(a);
    let y = chars_of(b);
    if x.len() != y.len() {
        return false;
    }
    let r = occurs_at_exec(&x, &y, 0);
    assert(r ==> x@.subrange(0, y@.len() as int) == y@);
    assert(x@.subrange(0, x@.len() as int) =~= x@);
    r
}

/// Whether `c` is white space (`char::is_whitespace`).
pub fn is_space_exec(c: char) -> (r: bool)
    ensures
        r == is_space(c),
{
    c == '\t' || c == '\n' || c == '\u{0B}' || c == '\u{0C}' || c == '\r' || c == ' ' || c
        == '\u{85}' || c == '\u{A0}' || c == '\u{1680}' || ('\u{2000}' <= c && c <= '\u{200A}')
        || c == '\u{2028}' || c == '\u{2029}' || c == '\u{202F}' || c == '\u{205F}' || c
        == '\u{3000}'
}

proof fn lemma_trim_start_skip(s: Seq<char>, i: int)
    requires
        0 <= i <= s.len(),
        forall|j: int| 0 <= j < i ==> is_space(s[j]),
    ensures
        trim_start(s) == trim_start(s.subrange(i, s.len() as int)),
    decreases i,
{
    if i > 0 {
        assert(s.drop_first().subrange(i - 1, s.drop_first().len() as int) =~= s.subrange(
            i,
            s.len() as int,
        ));
        lemma_trim_start_skip(s.drop_first(), i - 1);
    } else {
        assert(s.subrange(0, s.len() as int) =~= s);
    }
}

proof fn lemma_trim_end_skip(s: Seq<char>, i: int)
    requires
        0 <= i <= s.len(),
        forall|j: int| i <= j < s.len() ==> is_space(s[j]),
    ensures
        trim_end(s) == trim_end(s.subrange(0, i)),
    decreases s.len() - i,
{
    if i < s.len() {
        assert(s.drop_last().subrange(0, i) =~= s.subrange(0, i));
        lemma_trim_end_skip(s.drop_last(), i);
    } else {
        assert(s.subrange(0, i) =~= s);
    }
}

/// The bounds `(a, b)` such that `cs[a..b]` is `cs` trimmed of white space.
pub fn trim_bounds(cs: &Vec<char>) -> (r: (usize, usize))
    ensures
        r.0 <= r.1 <= cs@.len(),
        cs@.subrange(r.0 as int, r.1 as int) == trim(cs@),
        cs@.subrange(r.0 as int, cs@.len() as int) == trim_start(cs@),
{
    let mut a: usize = 0;
    while a < cs.len() && is_space_exec(cs[a])
        invariant
            a <= cs@.len(),
            forall|j: int| 0 <= j < a ==> is_space(cs@[j]),
        decreases cs.len() - a,
    {
        a = a + 1;
    }
    proof {
        lemma_trim_start_skip(cs@, a as int);
        let t = cs@.subrange(a as int, cs@.len() as int);
        if t.len() > 0 {
            assert(t[0] == cs@[a as int]);
        }
    }
    let mut b: usize = cs.len();
    while b > a && is_space_exec(cs[b - 1])
        invariant
            a <= b <= cs@.len(),
            forall|j: int| b <= j < cs@.len() ==> is_space(cs@[j]),
        decreases b,
    {
        b = b - 1;
    }
    proof {
        let t = cs@.subrange(a as int, cs@.len() as int);
        assert forall|j: int| (b - a) <= j < t.len() implies is_space(t[j]) by {
            assert(t[j] == cs@[a + j]);
        }
        lemma_trim_end_skip(t, (b - a) as int);
        assert(t.subrange(0, (b - a) as int) =~= cs@.subrange(a as int, b as int));
        let u = cs@.subrange(a as int, b as int);
        if u.len() > 0 {
            assert(u.last() == cs@[b - 1]);
        }
    }
    (a, b)
}

/// `cs` trimmed of leading and trailing white space.
pub fn trim_exec(cs: &Vec<char>) -> (r: Vec<char>)
    ensures
        r@ == trim(cs@),
{
    let (a, b) = trim_bounds(cs);
    slice_chars(cs, a, b)
}

/// The characters `cs[from..to]`.
pub fn slice_chars(cs: &Vec<char>, from: usize, to: usize) -> (r: Vec<char>)
    requires
        from <= to <= cs@.len(),
    ensures
        r@ == cs@.subrange(from as int, to as int),
{
    let mut r: Vec<char> = Vec::new();
    let mut i = from;
    while i < to
        invariant
            from <= i <= to <= cs@.len(),
            r@ == cs@.subrange(from as int, i as int),
        decreases to - i,
    {
        r.push(cs[i]);
        assert(cs@.subrange(from as int, i + 1) =~= cs@.subrange(from as int, i as int).push(
            cs@[i as int],
        ));
        i = i + 1;
    }
    r
}

/// The text `s` trimmed of leading and trailing white space.
pub fn str_trim(s: &str) -> (r: String)
    ensures
        r@ == trim(s@),
{
    let cs = chars_of(s);
    let (a, b) = trim_bounds(&cs);
    string_of(&cs, a, b)
}

proof fn lemma_split_len(s: Seq<char>, sep: char)
    ensures
        split(s, sep).len() >= 1,
    decreases s.len(),
{
    if s.len() > 0 {
        lemma_split_len(s.drop_last(), sep);
    }
}

/// The pieces of `cs` between the occurrences of `sep`.
pub fn split_exec(cs: &Vec<char>, sep: char) -> (r: Vec<Vec<char>>)
    ensures
        r@.map_values(|p: Vec<char>| p@) == split(cs@, sep),
        r@.len() >= 1,
{
    let mut r: Vec<Vec<char>> = Vec::new();
    let mut cur: Vec<char> = Vec::new();
    let mut i: usize = 0;
    while i < cs.len()
        invariant
            i <= cs@.len(),
            r@.map_values(|p: Vec<char>| p@).push(cur@) == split(cs@.subrange(0, i as int), sep),
        decreases cs.len() - i,
    {
        let ghost prefix = cs@.subrange(0, i as int);
        let ghost next = cs@.subrange(0, i + 1);
        assert(next.drop_last() =~= prefix);
        assert(next.last() == cs@[i as int]);
        proof {
            lemma_split_len(prefix, sep);
        }
        if cs[i] == sep {
            let done = cur;
            r.push(done);
            cur = Vec::new();
            assert(r@.map_values(|p: Vec<char>| p@) =~= split(prefix, sep));
            assert(r@.map_values(|p: Vec<char>| p@).push(cur@) =~= split(next, sep));
        } else {
            let ghost old_r = r@.map_values(|p: Vec<char>| p@);
            cur.push(cs[i]);
            assert(r@.map_values(|p: Vec<char>| p@) == old_r);
            assert(old_r.push(cur@) =~= split(prefix, sep).update(
                split(prefix, sep).len() - 1,
                split(prefix, sep).last().push(cs@[i as int]),
            ));
        }
        i = i + 1;
    }
    assert(cs@.subrange(0, cs@.len() as int) =~= cs@);
    r.push(cur);
    r
}

/// `parts` joined by `sep`.
pub fn join_exec(parts: &Vec<String>, sep: &str) -> (r: String)
    ensures
        r@ == join(parts@.map_values(|p: String| p@), sep@),
{
    let ghost views = parts@.map_values(|p: String| p@);
    let mut r = String::new();
    let mut i: usize = 0;
    while i < parts.len()
        invariant
            i <= parts@.len(),
            views == parts@.map_values(|p: String| p@),
            r@ == join(views.take(i as int), sep@),
        decreases parts.len() - i,
    {
        assert(views.take(i + 1).drop_last() =~= views.take(i as int));
        if i == 0 {
            assert(views.take(1) =~= seq![views[0]]);
            r.append(parts[i].as_str());
        } else {
            r.append(sep);
            r.append(parts[i].as_str());
        }
        i = i + 1;
    }
    assert(views.take(parts@.len() as int) =~= views);
    r
}

/// Whether the UTF-8 encoding of `cs` is longer than `limit` bytes.
pub fn utf8_longer_than(cs: &Vec<char>, limit: usize) -> (r: bool)
    ensures
        r == (utf8_len(cs@) > limit),
{
    let mut total: usize = 0;
    let mut i: usize = 0;
    while i < cs.len()
        invariant
            i <= cs@.len(),
            total == utf8_len(cs@.take(i as int)),
            total <= limit,
        decreases cs.len() - i,
    {
        assert(cs@.take(i + 1).drop_last() =~= cs@.take(i as int));
        let c = cs[i];
        let w: usize = if (c as u32) < 0x80 {
            1
        } else if (c as u32) < 0x800 {
            2
        } else if (c as u32) < 0x10000 {
            3
        } else {
            4
        };
        if w > limit - total {
            proof {
                lemma_utf8_len_prefix(cs@, i + 1);
            }
            return true;
        }
        total = total + w;
        i = i + 1;
    }
    assert(cs@.take(cs@.len() as int) =~= cs@);
    false
}

proof fn lemma_utf8_len_prefix(s: Seq<char>, n: int)
    requires
        0 <= n <= s.len(),
    ensures
        utf8_len(s.take(n)) <= utf8_len(s),
    decreases s.len() - n,
{
    if n < s.len() {
        lemma_utf8_len_prefix(s, n + 1);
        assert(s.take(n + 1).drop_last() =~= s.take(n));
    } else {
        assert(s.take(n) =~= s);
    }
}

/// The lines of `s`, as `str::lines` gives them.
pub fn lines_exec(s: &str) -> (r: Vec<String>)
    ensures
        r@.map_values(|l: String| l@) == lines(s@),
{
    let cs = chars_of(s);
    let pieces = split_exec(&cs, '\n');
    let ghost pv = pieces@.map_values(|p: Vec<char>| p@);
    let n = pieces.len() - 1;
    let ghost ended = pv.drop_last().map_values(|l: Seq<char>| strip_cr(l));
    let mut r: Vec<String> = Vec::new();
    let mut i: usize = 0;
    while i < n
        invariant
            i <= n,
            n + 1 == pieces@.len(),
            pv == pieces@.map_values(|p: Vec<char>| p@),
            ended == pv.drop_last().map_values(|l: Seq<char>| strip_cr(l)),
            r@.map_values(|l: String| l@) == ended.take(i as int),
        decreases n - i,
    {
        let p = &pieces[i];
        let end = if p.len() > 0 && p[p.len() - 1] == '\r' { p.len() - 1 } else { p.len() };
        let line = string_of(p, 0, end);
        proof {
            assert(p@ == pv[i as int]);
            if p@.len() > 0 && p@.last() == '\r' {
                assert(p@.subrange(0, end as int) =~= p@.drop_last());
            } else {
                assert(p@.subrange(0, end as int) =~= p@);
            }
            assert(ended[i as int] == strip_cr(pv[i as int]));
        }
        let ghost before = r@.map_values(|l: String| l@);
        r.push(line);
        assert(r@.map_values(|l: String| l@) =~= before.push(ended[i as int]));
        assert(ended.take(i + 1) =~= ended.take(i as int).push(ended[i as int]));
        i = i + 1;
    }
    assert(ended.take(n as int) =~= ended);
    if pieces[n].len() > 0 {
        let last = string_of_all(&pieces[n]);
        let ghost before = r@.map_values(|l: String| l@);
        r.push(last);
        assert(r@.map_values(|l: String| l@) =~= before.push(pv.last()));
    }
    r
}

/// Whether `s` is one of the texts of `list`.
pub fn str_in(s: &str, list: &Vec<&'static str>) -> (r: bool)
    ensures
        r == list@.map_values(|x: &'static str| x@).contains(s@),
{
    let ghost ls = list@.map_values(|x: &'static str| x@);
    let mut i: usize = 0;
    while i < list.len()
        invariant
            i <= list@.len(),
            ls == list@.map_values(|x: &'static str| x@),
            forall|k: int| 0 <= k < i ==> ls[k] != s@,
        decreases list.len() - i,
    {
        if str_eq(list[i], s) {
            assert(ls[i as int] == s@);
            return true;
        }
        i = i + 1;
    }
    false
}

/// Whether `s` contains one of the texts of `list`.
pub fn str_contains_any(s: &str, list: &Vec<&'static str>) -> (r: bool)
    ensures
        r == (exists|k: int| 0 <= k < list@.len() && contains(s@, #[trigger] list@[k]@)),
{
    let mut i: usize = 0;
    while i < list.len()
        invariant
            i <= list@.len(),
            forall|k: int| 0 <= k < i ==> !contains(s@, #[trigger] list@[k]@),
        decreases list.len() - i,
    {
        if str_contains(s, list[i]) {
            return true;
        }
        i = i + 1;
    }
    false
}

/// The one-character text of a decimal digit.
fn digit_str(d: usize) -> (r: &'static str)
    requires
        d < 10,
    ensures
        r@ == seq![digit_char(d as nat)],
{
    if d == 0 {
        proof { reveal_strlit("0"); }
        "0"
    } else if d == 1 {
        proof { reveal_strlit("1"); }
        "1"
    } else if d == 2 {
        proof { reveal_strlit("2"); }
        "2"
    } else if d == 3 {
        proof { reveal_strlit("3"); }
        "3"
    } else if d == 4 {
        proof { reveal_strlit("4"); }
        "4"
    } else if d == 5 {
        proof { reveal_strlit("5"); }
        "5"
    } else if d == 6 {
        proof { reveal_strlit("6"); }
        "6"
    } else if d == 7 {
        proof { reveal_strlit("7"); }
        "7"
    } else if d == 8 {
        proof { reveal_strlit("8"); }
        "8"
    } else {
        proof { reveal_strlit("9"); }
        "9"
    }
}

/// Appends the decimal numeral of `n` to `s`.
pub fn push_decimal(s: &mut String, n: usize)
    ensures
        final(s)@ == old(s)@ + decimal(n as nat),
    decreases n,
{
    if n < 10 {
        s.append(digit_str(n));
    } else {
        push_decimal(s, n / 10);
        s.append(digit_str(n % 10));
        assert(decimal(n as nat) == decimal((n / 10) as nat).push(digit_char((n % 10) as nat)));
    }
}

/// Appends the decimal numeral of the wide number `n` to `s`.
pub fn push_decimal_wide(s: &mut String, n: u128)
    ensures
        final(s)@ == old(s)@ + decimal(n as nat),
    decreases n,
{
    if n < 10 {
        s.append(digit_str(n as usize));
    } else {
        push_decimal_wide(s, n / 10);
        s.append(digit_str((n % 10) as usize));
        assert(decimal(n as nat) == decimal((n / 10) as nat).push(digit_char((n % 10) as nat)));
    }
}

/// The decimal numeral of `n`.
pub fn decimal_string(n: usize) -> (r: String)
    ensures
        r@ == decimal(n as nat),
{
    let mut s = String::new();
    push_decimal(&mut s, n);
    s
}

// ---------------------------------------------------------------------
// Text between byte offsets
// ---------------------------------------------------------------------
/// The byte offset in the UTF-8 encoding of `s` at which character `i`
/// starts (the whole length where `i` is `s.len()`).
pub open spec fn byte_offset(s: Seq<char>, i: int) -> nat {
    utf8_len(s.take(i))
}

/// Whether byte offset `b` of the UTF-8 encoding of `s` is where
/// character `i` starts (or the end, for `i == s.len()`).
pub open spec fn boundary_at(s: Seq<char>, i: int, b: int) -> bool {
    0 <= i <= s.len() && byte_offset(s, i) == b
}

/// The characters of `s` whose UTF-8 bytes lie between byte offsets
/// `start` and `end`, where both fall between characters and `start` does
/// not come after `end`; else nothing. This is what taking those bytes of
/// the text and reading them as UTF-8 gives (empty where they are not
/// UTF-8, or lie outside the text).
pub open spec fn byte_text(s: Seq<char>, start: int, end: int) -> Seq<char> {
    if (exists|i: int| #[trigger] boundary_at(s, i, start)) && (exists|j: int| #[trigger] boundary_at(s, j, end)) {
        let i = choose|i: int| #[trigger] boundary_at(s, i, start);
        let j = choose|j: int| #[trigger] boundary_at(s, j, end);
        if i <= j {
            s.subrange(i, j)
        } else {
            Seq::empty()
        }
    } else {
        Seq::empty()
    }
}

/// Byte offsets grow strictly from one character to the next.
pub proof fn lemma_byte_offset_increasing(s: Seq<char>, i: int, j: int)
    requires
        0 <= i < j <= s.len(),
    ensures
        byte_offset(s, i) < byte_offset(s, j),
    decreases j - i,
{
    assert(s.take(j).drop_last() =~= s.take(j - 1));
    if i < j - 1 {
        lemma_byte_offset_increasing(s, i, j - 1);
    }
}

/// The byte offset of each character of `cs`, and of the end, as far as
/// the offsets fit in a `usize`.
pub fn byte_offsets(cs: &Vec<char>) -> (offs: Vec<usize>)
    ensures
        1 <= offs@.len() <= cs@.len() + 1,
        forall|k: int| 0 <= k < offs@.len() ==> #[trigger] offs@[k] == byte_offset(cs@, k),
        offs@.len() <= cs@.len() ==> byte_offset(cs@, offs@.len() as int) > usize::MAX,
{
    let mut offs: Vec<usize> = Vec::new();
    offs.push(0);
    assert(cs@.take(0) =~= Seq::<char>::empty());
    let mut total: usize = 0;
    let mut i: usize = 0;
    while i < cs.len()
        invariant
            i <= cs@.len(),
            offs@.len() == i + 1,
            total == byte_offset(cs@, i as int),
            forall|k: int| 0 <= k < offs@.len() ==> #[trigger] offs@[k] == byte_offset(cs@, k),
        decreases cs.len() - i,
    {
        assert(cs@.take(i + 1).drop_last() =~= cs@.take(i as int));
        let c = cs[i];
        let w: usize = if (c as u32) < 0x80 {
            1
        } else if (c as u32) < 0x800 {
            2
        } else if (c as u32) < 0x10000 {
            3
        } else {
            4
        };
        if w > usize::MAX - total {
            return offs;
        }
        total = total + w;
        offs.push(total);
        i = i + 1;
    }
    offs
}

/// The position of `b` among the increasing offsets `offs`, if it is one.
fn find_offset(offs: &Vec<usize>, b: usize) -> (r: Option<usize>)
    requires
        forall|i: int, j: int| 0 <= i < j < offs@.len() ==> offs@[i] < offs@[j],
    ensures
        match r {
            Some(k) => k < offs@.len() && offs@[k as int] == b,
            None => forall|k: int| 0 <= k < offs@.len() ==> offs@[k] != b,
        },
{
    let mut lo: usize = 0;
    let mut hi: usize = offs.len();
    while lo < hi
        invariant
            lo <= hi <= offs@.len(),
            forall|i: int, j: int| 0 <= i < j < offs@.len() ==> offs@[i] < offs@[j],
            forall|k: int| 0 <= k < lo ==> offs@[k] < b,
            forall|k: int| hi <= k < offs@.len() ==> offs@[k] > b,
        decreases hi - lo,
    {
        let mid = lo + (hi - lo) / 2;
        if offs[mid] == b {
            return Some(mid);
        } else if offs[mid] < b {
            lo = mid + 1;
        } else {
            hi = mid;
        }
    }
    None
}

/// The character index at which byte offset `b` of `cs` falls between
/// characters, if it does.
fn boundary_index(cs: &Vec<char>, offs: &Vec<usize>, b: usize) -> (r: Option<usize>)
    requires
        1 <= offs@.len() <= cs@.len() + 1,
        forall|k: int| 0 <= k < offs@.len() ==> #[trigger] offs@[k] == byte_offset(cs@, k),
        offs@.len() <= cs@.len() ==> byte_offset(cs@, offs@.len() as int) > usize::MAX,
    ensures
        match r {
            Some(i) => boundary_at(cs@, i as int, b as int) && forall|k: int| #[trigger] boundary_at(cs@, k, b as int) ==> k == i,
            None => forall|k: int| !#[trigger] boundary_at(cs@, k, b as int),
        },
{
    proof {
        assert forall|i: int, j: int| 0 <= i < j < offs@.len() implies offs@[i] < offs@[j] by {
            lemma_byte_offset_increasing(cs@, i, j);
        }
    }
    let r = find_offset(offs, b);
    proof {
        assert forall|k: int| #[trigger] boundary_at(cs@, k, b as int) implies k < offs@.len() && offs@[k] == b by {
            if k >= offs@.len() {
                let n = offs@.len() as int;
                if k > n {
                    lemma_byte_offset_increasing(cs@, n, k);
                }
            }
        }
        match r {
            Some(i) => {
                assert forall|k: int| #[trigger] boundary_at(cs@, k, b as int) implies k == i by {
                    if k < i {
                        lemma_byte_offset_increasing(cs@, k, i as int);
                    } else if k > i {
                        lemma_byte_offset_increasing(cs@, i as int, k);
                    }
                }
            },
            None => {},
        }
    }
    r
}

/// The text of `cs` between byte offsets `start` and `end`, given the
/// offsets `offs` that `byte_offsets` computes for `cs`.
pub fn byte_text_exec(cs: &Vec<char>, offs: &Vec<usize>, start: usize, end: usize) -> (r: String)
    requires
        1 <= offs@.len() <= cs@.len() + 1,
        forall|k: int| 0 <= k < offs@.len() ==> #[trigger] offs@[k] == byte_offset(cs@, k),
        offs@.len() <= cs@.len() ==> byte_offset(cs@, offs@.len() as int) > usize::MAX,
    ensures
        r@ == byte_text(cs@, start as int, end as int),
{
    let a = boundary_index(cs, offs, start);
    let b = boundary_index(cs, offs, end);
    match (a, b) {
        (Some(i), Some(j)) => {
            assert(boundary_at(cs@, i as int, start as int));
            assert(boundary_at(cs@, j as int, end as int));
            if i <= j {
                string_of(cs, i, j)
            } else {
                String::new()
            }
        },
        _ => {
            proof {
                if a is None {
                    assert(!(exists|i: int| #[trigger] boundary_at(cs@, i, start as int)));
                } else {
                    assert(!(exists|j: int| #[trigger] boundary_at(cs@, j, end as int)));
                }
            }
            let r = String::new();
            assert(r@ =~= Seq::<char>::empty());
            r
        },
    }
}

} // verus!
