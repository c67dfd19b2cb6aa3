//! Paths, held as their text, and glob patterns over them.
use vstd::prelude::*;
use crate::grouping::{lemma_text_lt_irreflexive, lemma_text_lt_total, lemma_text_lt_transitive, text_less, text_lt};
use crate::text::{chars_of, last_occurrence, rfind, split, split_exec, string_of, string_of_all};

verus! {

/// Whether a path is absolute: on Unix, whether it starts with `/`.
pub open spec fn absolute_path(p: Seq<char>) -> bool {
    p.len() > 0 && p[0] == '/'
}

/// `base` joined with `rest` as `Path::join` does on Unix: an absolute
/// `rest` replaces `base`; otherwise a `/` is put between them unless `base`
/// is empty or already ends with one.
pub open spec fn joined_path(base: Seq<char>, rest: Seq<char>) -> Seq<char> {
    if absolute_path(rest) {
        rest
    } else if base.len() == 0 || base.last() == '/' {
        base + rest
    } else {
        base + seq!['/'] + rest
    }
}

/// What `Path::strip_prefix` gives (as text) for a path and a base.
pub uninterp spec fn path_after_prefix(path: Seq<char>, base: Seq<char>) -> Option<Seq<char>>;

/// What `Path::file_name` gives (as text) for a path: its last component
/// where that is a name (not the root, `.` or `..`), else none.
pub open spec fn path_file_name(path: Seq<char>) -> Option<Seq<char>> {
    let ps = path_parts(path);
    if ps.len() > 0 && ps.last() is Normal {
        Some(ps.last()->Normal_0)
    } else {
        None
    }
}

/// What `Path::extension` gives (as text) for a path: the part of its file
/// name after the last `.`, where there is one that is not the name's first
/// character.
pub open spec fn path_extension(path: Seq<char>) -> Option<Seq<char>> {
    match path_file_name(path) {
        Some(n) => match last_occurrence(n, seq!['.']) {
            Some(i) => if i == 0 {
                None
            } else {
                Some(n.subrange(i + 1, n.len() as int))
            },
            None => None,
        },
        None => None,
    }
}

/// Whether `glob::Pattern::new` accepts a pattern.
pub uninterp spec fn glob_pattern_ok(pattern: Seq<char>) -> bool;

/// What `glob::Pattern::matches_path` answers for a valid pattern and a path.
pub uninterp spec fn glob_path_matches(pattern: Seq<char>, path: Seq<char>) -> bool;

/// Whether the text `p` is an absolute path.
pub fn is_absolute(p: &str) -> (r: bool)
    ensures
        r == absolute_path(p@),
{
    let cs = chars_of(p);
    cs.len() > 0 && cs[0] == '/'
}

/// `base` joined with `rest`.
pub fn join_path(base: &str, rest: &str) -> (r: String)
    ensures
        r@ == joined_path(base@, rest@),
{
    if is_absolute(rest) {
        return String::from_str(rest);
    }
    let b = chars_of(base);
    let mut r = String::from_str(base);
    if b.len() > 0 && b[b.len() - 1] != '/' {
        proof {
            reveal_strlit("/");
        }
        r.append("/");
    }
    r.append(rest);
    r
}

/// Calls `Path::strip_prefix` and takes the remainder as text.
#[verifier::external_body]
pub(crate) fn strip_path_prefix(path: &str, base: &str) -> (r: Option<String>)
    ensures
        opt_chars(r) == path_after_prefix(path@, base@),
{
    match std::path::Path::new(path).strip_prefix(base) {
        Ok(rest) => Some(rest.to_string_lossy().into_owned()),
        Err(_) => None,
    }
}

/// The file name of a path, as `Path::file_name` gives it.
pub(crate) fn file_name(path: &str) -> (r: Option<String>)
    ensures
        opt_chars(r) == path_file_name(path@),
{
    let parts = path_components(path);
    let n = parts.len();
    if n == 0 {
        return None;
    }
    assert(part_views(parts@)[n - 1] == part_view(parts@[n - 1]));
    match &parts[n - 1] {
        PathPart::Normal(name) => Some(String::from_str(name.as_str())),
        _ => None,
    }
}

/// The extension of a path, as `Path::extension` gives it.
pub(crate) fn extension(path: &str) -> (r: Option<String>)
    ensures
        opt_chars(r) == path_extension(path@),
{
    match file_name(path) {
        Some(n) => {
            let cs = chars_of(n.as_str());
            let dot = vec!['.'];
            assert(dot@ =~= seq!['.']);
            match rfind(&cs, &dot) {
                Some(i) => {
                    if i == 0 {
                        None
                    } else {
                        assert(crate::text::occurs_at(cs@, dot@, i as int));
                        let len = cs.len();
                        assert(i < len);
                        Some(string_of(&cs, i + 1, len))
                    }
                },
                None => None,
            }
        },
        None => None,
    }
}

/// Calls `glob::Pattern::new` and, where the pattern is valid,
/// `Pattern::matches_path`: `None` for an invalid pattern.
#[verifier::external_body]
pub(crate) fn glob_matches(pattern: &str, path: &str) -> (r: Option<bool>)
    ensures
        r is Some <==> glob_pattern_ok(pattern@),
        r matches Some(b) ==> b == glob_path_matches(pattern@, path@),
{
    match glob::Pattern::new(pattern) {
        Ok(p) => Some(p.matches_path(std::path::Path::new(path))),
        Err(_) => None,
    }
}

/// The text of an optional string.
pub open spec fn opt_chars(o: Option<String>) -> Option<Seq<char>> {
    match o {
        Some(s) => Some(s@),
        None => None,
    }
}

/// A component of a path, as `Path::components` gives it on Unix.
pub enum PartView {
    Root,
    Cur,
    Parent,
    Normal(Seq<char>),
}

/// The components of a path whose pieces between `/` are `pieces`, taking
/// the first `n` pieces: a leading `/` is the root, empty pieces and `.`
/// pieces are skipped except a `.` that starts a relative path.
pub open spec fn parts_of(pieces: Seq<Seq<char>>, n: int, rooted: bool) -> Seq<PartView>
    decreases n,
{
    if n <= 0 {
        if rooted {
            seq![PartView::Root]
        } else {
            Seq::empty()
        }
    } else {
        let prev = parts_of(pieces, n - 1, rooted);
        let q = pieces[n - 1];
        if q.len() == 0 {
            prev
        } else if q == "."@ {
            if n == 1 {
                prev.push(PartView::Cur)
            } else {
                prev
            }
        } else if q == ".."@ {
            prev.push(PartView::Parent)
        } else {
            prev.push(PartView::Normal(q))
        }
    }
}

/// The components of the path `p`.
pub open spec fn path_parts(p: Seq<char>) -> Seq<PartView> {
    let pieces = split(p, '/');
    parts_of(pieces, pieces.len() as int, absolute_path(p))
}

/// The rank of a component's kind: root, then `.`, then `..`, then names.
pub open spec fn part_rank(c: PartView) -> int {
    match c {
        PartView::Root => 0,
        PartView::Cur => 1,
        PartView::Parent => 2,
        PartView::Normal(_) => 3,
    }
}

/// Whether component `a` comes before component `b`: by kind, and names by
/// their characters.
pub open spec fn part_lt(a: PartView, b: PartView) -> bool {
    match (a, b) {
        (PartView::Normal(x), PartView::Normal(y)) => text_lt(x, y),
        _ => part_rank(a) < part_rank(b),
    }
}

/// Whether the component list `a` comes before `b`, component by component.
pub open spec fn parts_lt(a: Seq<PartView>, b: Seq<PartView>) -> bool
    decreases a.len(),
{
    if a.len() == 0 {
        b.len() > 0
    } else if b.len() == 0 {
        false
    } else if a[0] != b[0] {
        part_lt(a[0], b[0])
    } else {
        parts_lt(a.drop_first(), b.drop_first())
    }
}

/// Whether path `a` comes before path `b`, as `Path`'s order has it.
pub open spec fn path_lt(a: Seq<char>, b: Seq<char>) -> bool {
    parts_lt(path_parts(a), path_parts(b))
}

/// Whether two paths are the same path: they have the same components.
pub open spec fn same_path(a: Seq<char>, b: Seq<char>) -> bool {
    path_parts(a) == path_parts(b)
}

proof fn lemma_part_order(a: PartView, b: PartView, c: PartView)
    ensures
        !part_lt(a, a),
        a != b ==> (part_lt(a, b) || part_lt(b, a)),
        !(part_lt(a, b) && part_lt(b, a)),
        part_lt(a, b) && part_lt(b, c) ==> part_lt(a, c),
{
    match a {
        PartView::Normal(x) => {
            lemma_text_lt_irreflexive(x);
            match b {
                PartView::Normal(y) => {
                    lemma_text_lt_total(x, y);
                    match c {
                        PartView::Normal(z) => {
                            if text_lt(x, y) && text_lt(y, z) {
                                lemma_text_lt_transitive(x, y, z);
                            }
                        },
                        _ => {},
                    }
                },
                _ => {},
            }
        },
        _ => {},
    }
}

/// The order of component lists is a strict total order.
pub proof fn lemma_parts_order(a: Seq<PartView>, b: Seq<PartView>, c: Seq<PartView>)
    ensures
        !parts_lt(a, a),
        a != b ==> (parts_lt(a, b) || parts_lt(b, a)),
        !(parts_lt(a, b) && parts_lt(b, a)),
        parts_lt(a, b) && parts_lt(b, c) ==> parts_lt(a, c),
    decreases a.len(),
{
    if a.len() > 0 {
        lemma_part_order(a[0], a[0], a[0]);
        if b.len() > 0 {
            lemma_part_order(a[0], b[0], a[0]);
            if c.len() > 0 {
                lemma_part_order(a[0], b[0], c[0]);
                lemma_part_order(b[0], c[0], a[0]);
                lemma_part_order(c[0], a[0], b[0]);
            }
            if a != b && a[0] == b[0] {
                assert(a.drop_first() != b.drop_first()) by {
                    if a.drop_first() == b.drop_first() {
                        assert(a =~= seq![a[0]] + a.drop_first());
                        assert(b =~= seq![b[0]] + b.drop_first());
                    }
                }
            }
        }
        if b.len() > 0 && c.len() > 0 {
            lemma_parts_order(a.drop_first(), b.drop_first(), c.drop_first());
        } else if b.len() > 0 {
            lemma_parts_order(a.drop_first(), b.drop_first(), b.drop_first());
        } else {
            lemma_parts_order(a.drop_first(), a.drop_first(), a.drop_first());
        }
    } else {
        if b.len() == 0 {
            assert(a =~= b);
        }
    }
}

/// A component of a path, held as plain data.
#[derive(Debug, Clone)]
pub enum PathPart {
    Root,
    Cur,
    Parent,
    Normal(String),
}

/// The view of a component.
pub open spec fn part_view(p: PathPart) -> PartView {
    match p {
        PathPart::Root => PartView::Root,
        PathPart::Cur => PartView::Cur,
        PathPart::Parent => PartView::Parent,
        PathPart::Normal(s) => PartView::Normal(s@),
    }
}

/// The views of components.
pub open spec fn part_views(ps: Seq<PathPart>) -> Seq<PartView> {
    ps.map_values(|p: PathPart| part_view(p))
}

/// The components of the path `p`.
pub fn path_components(p: &str) -> (r: Vec<PathPart>)
    ensures
        part_views(r@) == path_parts(p@),
{
    let cs = chars_of(p);
    let pieces = split_exec(&cs, '/');
    let ghost pv = pieces@.map_values(|q: Vec<char>| q@);
    let rooted = is_absolute(p);
    let mut out: Vec<PathPart> = Vec::new();
    if rooted {
        out.push(PathPart::Root);
    }
    proof {
        reveal_strlit(".");
        reveal_strlit("..");
        assert(part_views(out@) =~= parts_of(pv, 0, rooted));
    }
    let mut i: usize = 0;
    while i < pieces.len()
        invariant
            pv == pieces@.map_values(|q: Vec<char>| q@),
            pv == split(p@, '/'),
            rooted == absolute_path(p@),
            i <= pieces@.len(),
            part_views(out@) == parts_of(pv, i as int, rooted),
            "."@ == seq!['.'],
            ".."@ == seq!['.', '.'],
        decreases pieces.len() - i,
    {
        let q = &pieces[i];
        assert(pv[i as int] == q@);
        let ghost before = out@;
        if q.len() == 0 {
        } else if q.len() == 1 && q[0] == '.' {
            assert(q@ =~= "."@);
            if i == 0 {
                out.push(PathPart::Cur);
            }
        } else if q.len() == 2 && q[0] == '.' && q[1] == '.' {
            assert(q@ =~= ".."@);
            assert(q@ != "."@);
            out.push(PathPart::Parent);
        } else {
            assert(q@ != "."@) by {
                if q@ == "."@ {
                    assert(q@.len() == 1);
                }
            }
            assert(q@ != ".."@) by {
                if q@ == ".."@ {
                    assert(q@.len() == 2);
                }
            }
            out.push(PathPart::Normal(string_of_all(q)));
        }
        proof {
            assert(part_views(out@) =~= parts_of(pv, i + 1, rooted));
        }
        i = i + 1;
    }
    out
}

fn part_less(a: &PathPart, b: &PathPart) -> (r: bool)
    ensures
        r == part_lt(part_view(*a), part_view(*b)),
{
    match (a, b) {
        (PathPart::Normal(x), PathPart::Normal(y)) => text_less(x.as_str(), y.as_str()),
        _ => part_order(a) < part_order(b),
    }
}

fn part_order(a: &PathPart) -> (r: u8)
    ensures
        r == part_rank(part_view(*a)),
{
    match a {
        PathPart::Root => 0,
        PathPart::Cur => 1,
        PathPart::Parent => 2,
        PathPart::Normal(_) => 3,
    }
}

fn part_same(a: &PathPart, b: &PathPart) -> (r: bool)
    ensures
        r == (part_view(*a) == part_view(*b)),
{
    match (a, b) {
        (PathPart::Normal(x), PathPart::Normal(y)) => crate::text::str_eq(x.as_str(), y.as_str()),
        (PathPart::Root, PathPart::Root) => true,
        (PathPart::Cur, PathPart::Cur) => true,
        (PathPart::Parent, PathPart::Parent) => true,
        _ => false,
    }
}

/// Whether path `a` comes before path `b` in `Path`'s order.
pub fn path_less(a: &str, b: &str) -> (r: bool)
    ensures
        r == path_lt(a@, b@),
{
    let x = path_components(a);
    let y = path_components(b);
    let ghost xv = part_views(x@);
    let ghost yv = part_views(y@);
    assert(xv.skip(0) =~= xv);
    assert(yv.skip(0) =~= yv);
    let mut i: usize = 0;
    while i < x.len() && i < y.len() && part_same(&x[i], &y[i])
        invariant
            xv == part_views(x@),
            yv == part_views(y@),
            xv == path_parts(a@),
            yv == path_parts(b@),
            i <= x@.len(),
            i <= y@.len(),
            parts_lt(xv, yv) == parts_lt(xv.skip(i as int), yv.skip(i as int)),
        decreases x.len() - i,
    {
        proof {
            assert(xv.skip(i as int)[0] == xv[i as int]);
            assert(yv.skip(i as int)[0] == yv[i as int]);
            assert(xv.skip(i as int).drop_first() =~= xv.skip(i + 1));
            assert(yv.skip(i as int).drop_first() =~= yv.skip(i + 1));
        }
        i = i + 1;
    }
    if i == x.len() {
        assert(xv.skip(i as int).len() == 0);
        return i < y.len();
    }
    if i == y.len() {
        assert(yv.skip(i as int).len() == 0);
        return false;
    }
    proof {
        assert(xv.skip(i as int)[0] == xv[i as int]);
        assert(yv.skip(i as int)[0] == yv[i as int]);
    }
    part_less(&x[i], &y[i])
}

/// Whether `a` and `b` are the same path.
pub fn same_path_exec(a: &str, b: &str) -> (r: bool)
    ensures
        r == same_path(a@, b@),
{
    let x = path_components(a);
    let y = path_components(b);
    let ghost xv = part_views(x@);
    let ghost yv = part_views(y@);
    if x.len() != y.len() {
        assert(xv.len() != yv.len());
        return false;
    }
    let mut i: usize = 0;
    while i < x.len()
        invariant
            xv == part_views(x@),
            yv == part_views(y@),
            xv == path_parts(a@),
            yv == path_parts(b@),
            x@.len() == y@.len(),
            i <= x@.len(),
            forall|k: int| 0 <= k < i ==> xv[k] == yv[k],
        decreases x.len() - i,
    {
        assert(xv[i as int] == part_view(x@[i as int]));
        assert(yv[i as int] == part_view(y@[i as int]));
        if !part_same(&x[i], &y[i]) {
            assert(xv[i as int] != yv[i as int]);
            return false;
        }
        i = i + 1;
    }
    assert(xv =~= yv);
    true
}

} // verus!
