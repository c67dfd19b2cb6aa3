//! Grouping keyed items in order of first appearance, and keeping the
//! distinct texts of a list in increasing order.
use vstd::prelude::*;
use crate::models::texts;
use crate::text::str_eq;

verus! {

/// The position of the group with key `key`, if there is one.
pub open spec fn key_index(g: Seq<(u64, Seq<usize>)>, key: u64) -> Option<int> {
    if exists|k: int| 0 <= k < g.len() && g[k].0 == key {
        Some(choose|k: int| 0 <= k < g.len() && g[k].0 == key)
    } else {
        None
    }
}

/// `items` grouped by key: one group per key, in order of the key's first
/// appearance, each holding its items' values in order.
pub open spec fn grouped(items: Seq<(u64, usize)>) -> Seq<(u64, Seq<usize>)>
    decreases items.len(),
{
    if items.len() == 0 {
        Seq::empty()
    } else {
        let g = grouped(items.drop_last());
        let x = items.last();
        match key_index(g, x.0) {
            Some(k) => g.update(k, (x.0, g[k].1.push(x.1))),
            None => g.push((x.0, seq![x.1])),
        }
    }
}

pub open spec fn distinct_group_keys(g: Seq<(u64, Seq<usize>)>) -> bool {
    forall|a: int, b: int| 0 <= a < g.len() && 0 <= b < g.len() && a != b ==> g[a].0 != g[b].0
}

pub proof fn lemma_grouped_distinct(items: Seq<(u64, usize)>)
    ensures
        distinct_group_keys(grouped(items)),
    decreases items.len(),
{
    if items.len() > 0 {
        lemma_grouped_distinct(items.drop_last());
        let g = grouped(items.drop_last());
        let x = items.last();
        match key_index(g, x.0) {
            Some(k) => {
                let k0 = choose|k: int| 0 <= k < g.len() && g[k].0 == x.0;
                assert(grouped(items) == g.update(k0, (x.0, g[k0].1.push(x.1))));
            },
            None => {
                assert forall|a: int| 0 <= a < g.len() implies g[a].0 != x.0 by {
                }
            },
        }
    }
}

/// Every value in the groups of `items` is below `bound` when every item's is.
pub proof fn lemma_grouped_bounded(items: Seq<(u64, usize)>, bound: nat)
    requires
        forall|k: int| 0 <= k < items.len() ==> (#[trigger] items[k]).1 < bound,
    ensures
        forall|a: int, b: int|
            0 <= a < grouped(items).len() && 0 <= b < grouped(items)[a].1.len() ==> #[trigger] grouped(items)[a].1[b] < bound,
    decreases items.len(),
{
    if items.len() > 0 {
        let init = items.drop_last();
        assert forall|k: int| 0 <= k < init.len() implies (#[trigger] init[k]).1 < bound by {
            assert(init[k] == items[k]);
        }
        lemma_grouped_bounded(init, bound);
        let g = grouped(init);
        let x = items.last();
        assert(x == items[items.len() - 1]);
        match key_index(g, x.0) {
            Some(k) => {
                let k0 = choose|k: int| 0 <= k < g.len() && g[k].0 == x.0;
                let ng = g.update(k0, (x.0, g[k0].1.push(x.1)));
                assert(grouped(items) == ng);
                assert forall|a: int, b: int| 0 <= a < ng.len() && 0 <= b < ng[a].1.len() implies #[trigger] ng[a].1[b] < bound by {
                    if a == k0 {
                        if b < g[k0].1.len() {
                            assert(ng[a].1[b] == g[k0].1[b]);
                        }
                    }
                }
            },
            None => {
                let ng = g.push((x.0, seq![x.1]));
                assert(grouped(items) == ng);
                assert forall|a: int, b: int| 0 <= a < ng.len() && 0 <= b < ng[a].1.len() implies #[trigger] ng[a].1[b] < bound by {
                    if a < g.len() {
                        assert(ng[a] == g[a]);
                    }
                }
            },
        }
    }
}

/// The view of groups held in vectors.
pub open spec fn group_views(v: Seq<(u64, Vec<usize>)>) -> Seq<(u64, Seq<usize>)> {
    v.map_values(|p: (u64, Vec<usize>)| (p.0, p.1@))
}

/// The position of the group with key `key`.
fn find_group(groups: &Vec<(u64, Vec<usize>)>, key: u64) -> (r: Option<usize>)
    ensures
        r matches Some(k) ==> k < groups@.len() && groups@[k as int].0 == key,
        r is None ==> forall|j: int| 0 <= j < groups@.len() ==> groups@[j].0 != key,
{
    let mut k: usize = 0;
    while k < groups.len()
        invariant
            k <= groups@.len(),
            forall|j: int| 0 <= j < k ==> groups@[j].0 != key,
        decreases groups.len() - k,
    {
        if groups[k].0 == key {
            return Some(k);
        }
        k = k + 1;
    }
    None
}

/// Groups `items` by key in order of first appearance.
pub fn group_by_key(items: &Vec<(u64, usize)>) -> (r: Vec<(u64, Vec<usize>)>)
    ensures
        group_views(r@) == grouped(items@),
{
    let mut groups: Vec<(u64, Vec<usize>)> = Vec::new();
    let mut i: usize = 0;
    while i < items.len()
        invariant
            i <= items@.len(),
            group_views(groups@) == grouped(items@.take(i as int)),
        decreases items.len() - i,
    {
        let (key, val) = items[i];
        let ghost g = grouped(items@.take(i as int));
        proof {
            assert(items@.take(i + 1).drop_last() =~= items@.take(i as int));
            lemma_grouped_distinct(items@.take(i as int));
        }
        let pos = find_group(&groups, key);
        if let Some(k) = pos {
            proof {
                let k0 = choose|j: int| 0 <= j < g.len() && g[j].0 == key;
                assert(g[k as int].0 == key);
                assert(k0 == k);
            }
            let mut members = groups[k].1.clone();
            members.push(val);
            groups.set(k, (key, members));
            proof {
                assert(group_views(groups@) =~= g.update(k as int, (key, g[k as int].1.push(val))));
            }
        } else {
            proof {
                assert forall|j: int| 0 <= j < g.len() implies g[j].0 != key by {
                    assert(g[j].0 == groups@[j].0);
                }
                assert(key_index(g, key) is None);
            }
            let mut members: Vec<usize> = Vec::new();
            members.push(val);
            groups.push((key, members));
            proof {
                assert(group_views(groups@) =~= g.push((key, seq![val])));
            }
        }
        i = i + 1;
    }
    assert(items@.take(items@.len() as int) =~= items@);
    groups
}

/// `a` comes before `b` in the order of their characters' code points
/// (which is also the byte order of their UTF-8 encodings).
pub open spec fn text_lt(a: Seq<char>, b: Seq<char>) -> bool
    decreases a.len(),
{
    if a.len() == 0 {
        b.len() > 0
    } else if b.len() == 0 {
        false
    } else if a[0] != b[0] {
        (a[0] as int) < (b[0] as int)
    } else {
        text_lt(a.drop_first(), b.drop_first())
    }
}

pub proof fn lemma_text_lt_irreflexive(a: Seq<char>)
    ensures
        !text_lt(a, a),
    decreases a.len(),
{
    if a.len() > 0 {
        lemma_text_lt_irreflexive(a.drop_first());
    }
}

pub proof fn lemma_text_lt_total(a: Seq<char>, b: Seq<char>)
    ensures
        a != b ==> (text_lt(a, b) || text_lt(b, a)),
        !(text_lt(a, b) && text_lt(b, a)),
    decreases a.len(),
{
    if a.len() > 0 && b.len() > 0 {
        lemma_text_lt_total(a.drop_first(), b.drop_first());
        if a[0] == b[0] && a != b {
            assert(a =~= seq![a[0]] + a.drop_first());
            assert(b =~= seq![b[0]] + b.drop_first());
        }
        if a[0] != b[0] {
            assert((a[0] as int) != (b[0] as int));
        }
    } else if a.len() == 0 && b.len() == 0 {
        assert(a =~= b);
    }
}

pub proof fn lemma_text_lt_transitive(a: Seq<char>, b: Seq<char>, c: Seq<char>)
    requires
        text_lt(a, b),
        text_lt(b, c),
    ensures
        text_lt(a, c),
    decreases a.len(),
{
    if a.len() > 0 && b.len() > 0 && c.len() > 0 {
        if a[0] == b[0] && b[0] == c[0] {
            lemma_text_lt_transitive(a.drop_first(), b.drop_first(), c.drop_first());
        }
    }
}

/// Whether `a` comes before `b`.
pub fn text_less(a: &str, b: &str) -> (r: bool)
    ensures
        r == text_lt(a@, b@),
{
    let x = crate::text::chars_of(a);
    let y = crate::text::chars_of(b);
    proof {
        assert(x@.subrange(0, x@.len() as int) =~= x@);
        assert(y@.subrange(0, y@.len() as int) =~= y@);
    }
    let mut i: usize = 0;
    while i < x.len() && i < y.len() && x[i] == y[i]
        invariant
            i <= x@.len(),
            i <= y@.len(),
            x@.subrange(0, i as int) == y@.subrange(0, i as int),
            text_lt(x@, y@) == text_lt(x@.subrange(i as int, x@.len() as int), y@.subrange(i as int, y@.len() as int)),
        decreases x.len() - i,
    {
        proof {
            let xs = x@.subrange(i as int, x@.len() as int);
            let ys = y@.subrange(i as int, y@.len() as int);
            assert(xs.drop_first() =~= x@.subrange(i + 1, x@.len() as int));
            assert(ys.drop_first() =~= y@.subrange(i + 1, y@.len() as int));
            assert(x@.subrange(0, i + 1) =~= x@.subrange(0, i as int).push(x@[i as int]));
            assert(y@.subrange(0, i + 1) =~= y@.subrange(0, i as int).push(y@[i as int]));
        }
        i = i + 1;
    }
    proof {
        assert(x@.subrange(0, x@.len() as int) =~= x@);
        assert(y@.subrange(0, y@.len() as int) =~= y@);
    }
    if i == x.len() {
        i < y.len()
    } else if i == y.len() {
        false
    } else {
        x[i] < y[i]
    }
}

/// Strictly increasing texts.
pub open spec fn strictly_sorted(s: Seq<Seq<char>>) -> bool {
    forall|i: int, j: int| 0 <= i < j < s.len() ==> text_lt(#[trigger] s[i], #[trigger] s[j])
}

/// `x` occurs at least twice in `vals`.
pub open spec fn duplicated(vals: Seq<Seq<char>>, x: Seq<char>) -> bool {
    exists|i: int, j: int| 0 <= i < j < vals.len() && #[trigger] vals[i] == x && #[trigger] vals[j] == x
}

/// The values that occur more than once in `vals`, each once, in increasing order.
pub open spec fn sorted_duplicates(vals: Seq<Seq<char>>) -> Seq<Seq<char>> {
    choose|r: Seq<Seq<char>>| strictly_sorted(r) && forall|x: Seq<char>| r.contains(x) <==> duplicated(vals, x)
}

/// Two strictly increasing sequences with the same items are equal.
pub proof fn lemma_sorted_unique(a: Seq<Seq<char>>, b: Seq<Seq<char>>)
    requires
        strictly_sorted(a),
        strictly_sorted(b),
        forall|x: Seq<char>| a.contains(x) <==> b.contains(x),
    ensures
        a == b,
    decreases a.len(),
{
    if a.len() == 0 {
        if b.len() > 0 {
            assert(b.contains(b[0]));
        }
        assert(a =~= b);
    } else {
        assert(a.contains(a[0]));
        assert(b.len() > 0);
        assert(b.contains(b[0]));
        if a[0] != b[0] {
            let i = choose|i: int| 0 <= i < b.len() && b[i] == a[0];
            let j = choose|j: int| 0 <= j < a.len() && a[j] == b[0];
            assert(i > 0) by {
                if i == 0 {
                }
            }
            assert(j > 0) by {
                if j == 0 {
                }
            }
            assert(text_lt(b[0], b[i]));
            assert(text_lt(a[0], a[j]));
            lemma_text_lt_total(a[0], b[0]);
        }
        let a2 = a.drop_first();
        let b2 = b.drop_first();
        assert forall|x: Seq<char>| a2.contains(x) <==> b2.contains(x) by {
            if a2.contains(x) {
                let i = choose|i: int| 0 <= i < a2.len() && a2[i] == x;
                assert(a[i + 1] == x);
                assert(text_lt(a[0], a[i + 1]));
                lemma_text_lt_irreflexive(a[0]);
                assert(b.contains(x));
                let k = choose|k: int| 0 <= k < b.len() && b[k] == x;
                if k == 0 {
                    assert(x == a[0]);
                }
                assert(b2[k - 1] == x);
            }
            if b2.contains(x) {
                let i = choose|i: int| 0 <= i < b2.len() && b2[i] == x;
                assert(b[i + 1] == x);
                assert(text_lt(b[0], b[i + 1]));
                lemma_text_lt_irreflexive(b[0]);
                assert(a.contains(x));
                let k = choose|k: int| 0 <= k < a.len() && a[k] == x;
                if k == 0 {
                    assert(x == b[0]);
                }
                assert(a2[k - 1] == x);
            }
        }
        lemma_sorted_unique(a2, b2);
        assert(a =~= seq![a[0]] + a2);
        assert(b =~= seq![b[0]] + b2);
    }
}

/// Inserts `x` into the strictly increasing `s` where it is missing.
fn insert_sorted(s: &mut Vec<String>, x: &String)
    requires
        strictly_sorted(texts(old(s)@)),
    ensures
        strictly_sorted(texts(final(s)@)),
        forall|y: Seq<char>|
            #[trigger] texts(final(s)@).contains(y) <==> (texts(old(s)@).contains(y) || y == x@),
{
    let ghost old_v = texts(s@);
    let mut i: usize = 0;
    while i < s.len() && text_less(s[i].as_str(), x.as_str())
        invariant
            i <= s@.len(),
            texts(s@) == old_v,
            forall|j: int| 0 <= j < i ==> text_lt(#[trigger] old_v[j], x@),
        decreases s.len() - i,
    {
        i = i + 1;
    }
    if i < s.len() && str_eq(s[i].as_str(), x.as_str()) {
        proof {
            assert(old_v[i as int] == x@);
            assert forall|y: Seq<char>| #[trigger] texts(s@).contains(y) <==> (old_v.contains(y) || y == x@) by {
                if y == x@ {
                    assert(old_v.contains(y));
                }
            }
        }
        return;
    }
    proof {
        if i < old_v.len() {
            lemma_text_lt_total(old_v[i as int], x@);
        }
    }
    s.insert(i, x.clone());
    proof {
        let nv = texts(s@);
        assert(nv =~= old_v.insert(i as int, x@));
        assert forall|a: int, b: int| 0 <= a < b < nv.len() implies text_lt(#[trigger] nv[a], #[trigger] nv[b]) by {
            if b < i {
            } else if a > i {
                assert(nv[a] == old_v[a - 1]);
                assert(nv[b] == old_v[b - 1]);
            } else if a == i {
                assert(nv[b] == old_v[b - 1]);
                if b - 1 > i {
                    assert(text_lt(old_v[i as int], old_v[b - 1]));
                    lemma_text_lt_transitive(x@, old_v[i as int], old_v[b - 1]);
                }
            } else if b == i {
                assert(text_lt(old_v[a], x@));
            } else {
                assert(nv[b] == old_v[b - 1]);
                assert(text_lt(old_v[a], old_v[i as int]));
                if b - 1 > i {
                    assert(text_lt(old_v[i as int], old_v[b - 1]));
                    lemma_text_lt_transitive(old_v[a], old_v[i as int], old_v[b - 1]);
                }
            }
        }
        assert forall|y: Seq<char>| nv.contains(y) <==> (old_v.contains(y) || y == x@) by {
            if nv.contains(y) {
                let k = choose|k: int| 0 <= k < nv.len() && nv[k] == y;
                if k < i {
                    assert(old_v[k] == y);
                } else if k > i {
                    assert(old_v[k - 1] == y);
                }
            }
            if old_v.contains(y) {
                let k = choose|k: int| 0 <= k < old_v.len() && old_v[k] == y;
                if k < i {
                    assert(nv[k] == y);
                } else {
                    assert(nv[k + 1] == y);
                }
            }
            if y == x@ {
                assert(nv[i as int] == y);
            }
        }
    }
}

/// The values that occur more than once in `vals`, each once, in increasing order.
pub fn duplicate_values(vals: &Vec<String>) -> (r: Vec<String>)
    ensures
        texts(r@) == sorted_duplicates(texts(vals@)),
{
    let ghost vs = texts(vals@);
    let mut seen: Vec<String> = Vec::new();
    let mut dups: Vec<String> = Vec::new();
    let mut k: usize = 0;
    while k < vals.len()
        invariant
            k <= vals@.len(),
            vs == texts(vals@),
            forall|x: Seq<char>| texts(seen@).contains(x) <==> exists|j: int| 0 <= j < k && #[trigger] vs[j] == x,
            strictly_sorted(texts(dups@)),
            forall|x: Seq<char>| texts(dups@).contains(x) <==> duplicated(vs.take(k as int), x),
        decreases vals.len() - k,
    {
        let v = &vals[k];
        let ghost pre = vs.take(k as int);
        let ghost post = vs.take(k + 1);
        proof {
            assert(post =~= pre.push(vs[k as int]));
            assert(vs[k as int] == v@);
        }
        if crate::rules::texts_contain_exec(&seen, v.as_str()) {
            let ghost old_d = texts(dups@);
            insert_sorted(&mut dups, v);
            proof {
                let sv = texts(seen@);
                let w = choose|i: int| 0 <= i < seen@.len() && #[trigger] seen@[i]@ == v@;
                assert(sv[w] == v@);
                assert(sv.contains(v@));
                let j0 = choose|j: int| 0 <= j < k && #[trigger] vs[j] == v@;
                assert forall|x: Seq<char>| texts(dups@).contains(x) <==> duplicated(post, x) by {
                    if x == v@ {
                        assert(post[j0] == x && post[k as int] == x);
                    }
                    if duplicated(post, x) && x != v@ {
                        let (i1, i2) = choose|i1: int, i2: int| 0 <= i1 < i2 < post.len() && #[trigger] post[i1] == x && #[trigger] post[i2] == x;
                        assert(i2 < k);
                        assert(pre[i1] == x && pre[i2] == x);
                    }
                    if duplicated(pre, x) {
                        let (i1, i2) = choose|i1: int, i2: int| 0 <= i1 < i2 < pre.len() && #[trigger] pre[i1] == x && #[trigger] pre[i2] == x;
                        assert(post[i1] == x && post[i2] == x);
                    }
                }
            }
        } else {
            proof {
                assert forall|x: Seq<char>| duplicated(post, x) <==> duplicated(pre, x) by {
                    if duplicated(post, x) {
                        let (i1, i2) = choose|i1: int, i2: int| 0 <= i1 < i2 < post.len() && #[trigger] post[i1] == x && #[trigger] post[i2] == x;
                        if i2 == k {
                            assert(vs[i1] == v@);
                            let sv = texts(seen@);
                            assert(exists|j: int| 0 <= j < k && #[trigger] vs[j] == v@);
                            assert(sv.contains(v@));
                            let w = choose|w: int| 0 <= w < sv.len() && sv[w] == v@;
                            assert(seen@[w]@ == v@);
                        } else {
                            assert(pre[i1] == x && pre[i2] == x);
                        }
                    }
                    if duplicated(pre, x) {
                        let (i1, i2) = choose|i1: int, i2: int| 0 <= i1 < i2 < pre.len() && #[trigger] pre[i1] == x && #[trigger] pre[i2] == x;
                        assert(post[i1] == x && post[i2] == x);
                    }
                }
            }
            let ghost old_s = texts(seen@);
            seen.push(v.clone());
            proof {
                let sv = texts(seen@);
                assert(sv =~= old_s.push(v@));
                assert forall|x: Seq<char>| sv.contains(x) <==> exists|j: int| 0 <= j < k + 1 && #[trigger] vs[j] == x by {
                    if sv.contains(x) {
                        let i = choose|i: int| 0 <= i < sv.len() && sv[i] == x;
                        if i < old_s.len() {
                            assert(old_s[i] == x);
                            assert(old_s.contains(x));
                        } else {
                            assert(vs[k as int] == x);
                        }
                    }
                    if exists|j: int| 0 <= j < k + 1 && #[trigger] vs[j] == x {
                        let j = choose|j: int| 0 <= j < k + 1 && #[trigger] vs[j] == x;
                        if j < k {
                            assert(old_s.contains(x));
                            let i = choose|i: int| 0 <= i < old_s.len() && old_s[i] == x;
                            assert(sv[i] == x);
                        } else {
                            assert(sv[old_s.len() as int] == x);
                        }
                    }
                }
            }
        }
        k = k + 1;
    }
    proof {
        assert(vs.take(vals@.len() as int) =~= vs);
        let dv = texts(dups@);
        let sd = sorted_duplicates(vs);
        assert(strictly_sorted(dv) && forall|x: Seq<char>| dv.contains(x) <==> duplicated(vs, x));
        assert(strictly_sorted(sd) && forall|x: Seq<char>| sd.contains(x) <==> duplicated(vs, x));
        lemma_sorted_unique(dv, sd);
    }
    dups
}

/// The distinct values of `vals` in increasing order (what sorting and then
/// removing repeats gives).
pub open spec fn sorted_set(vals: Seq<Seq<char>>) -> Seq<Seq<char>> {
    choose|r: Seq<Seq<char>>| strictly_sorted(r) && forall|x: Seq<char>| r.contains(x) <==> vals.contains(x)
}

/// `x` put into the strictly increasing `r`, which lacks it, keeps it
/// strictly increasing.
proof fn lemma_insert_keeps_sorted(r: Seq<Seq<char>>, x: Seq<char>)
    requires
        strictly_sorted(r),
        !r.contains(x),
    ensures
        exists|r1: Seq<Seq<char>>|
            strictly_sorted(r1) && forall|y: Seq<char>| #[trigger] r1.contains(y) <==> (r.contains(y) || y == x),
    decreases r.len(),
{
    if r.len() == 0 {
        let r1 = seq![x];
        assert(forall|y: Seq<char>| #[trigger] r1.contains(y) <==> (r.contains(y) || y == x)) by {
            assert forall|y: Seq<char>| #[trigger] r1.contains(y) implies y == x by {
                let k = choose|k: int| 0 <= k < r1.len() && r1[k] == y;
            }
            assert(r1[0] == x);
        }
        assert(strictly_sorted(r1));
        assert(strictly_sorted(r1) && forall|y: Seq<char>| #[trigger] r1.contains(y) <==> (r.contains(y) || y == x));
    } else {
        let last = r.last();
        lemma_text_lt_total(last, x);
        assert(r.contains(last));
        if text_lt(last, x) {
            let r1 = r.push(x);
            assert forall|i: int, j: int| 0 <= i < j < r1.len() implies text_lt(#[trigger] r1[i], #[trigger] r1[j]) by {
                if j == r.len() {
                    if i < r.len() - 1 {
                        assert(text_lt(r[i], r[r.len() - 1]));
                        lemma_text_lt_transitive(r[i], last, x);
                    }
                } else {
                    assert(r1[i] == r[i] && r1[j] == r[j]);
                }
            }
            assert forall|y: Seq<char>| #[trigger] r1.contains(y) <==> (r.contains(y) || y == x) by {
                if r1.contains(y) {
                    let k = choose|k: int| 0 <= k < r1.len() && r1[k] == y;
                    if k < r.len() {
                        assert(r[k] == y);
                    }
                }
                if r.contains(y) {
                    let k = choose|k: int| 0 <= k < r.len() && r[k] == y;
                    assert(r1[k] == y);
                }
                if y == x {
                    assert(r1[r.len() as int] == y);
                }
            }
            assert(strictly_sorted(r1) && forall|y: Seq<char>| #[trigger] r1.contains(y) <==> (r.contains(y) || y == x));
        } else {
            let init = r.drop_last();
            assert(strictly_sorted(init)) by {
                assert forall|i: int, j: int| 0 <= i < j < init.len() implies text_lt(#[trigger] init[i], #[trigger] init[j]) by {
                    assert(init[i] == r[i] && init[j] == r[j]);
                }
            }
            assert(!init.contains(x)) by {
                if init.contains(x) {
                    let k = choose|k: int| 0 <= k < init.len() && init[k] == x;
                    assert(r[k] == x);
                }
            }
            lemma_insert_keeps_sorted(init, x);
            let r0 = choose|r1: Seq<Seq<char>>|
                strictly_sorted(r1) && forall|y: Seq<char>| #[trigger] r1.contains(y) <==> (init.contains(y) || y == x);
            let r1 = r0.push(last);
            assert forall|i: int, j: int| 0 <= i < j < r1.len() implies text_lt(#[trigger] r1[i], #[trigger] r1[j]) by {
                if j == r0.len() {
                    let y = r0[i];
                    assert(r0.contains(y));
                    if y == x {
                    } else {
                        assert(init.contains(y));
                        let k = choose|k: int| 0 <= k < init.len() && init[k] == y;
                        assert(r[k] == y);
                        assert(text_lt(r[k], r[r.len() - 1]));
                    }
                } else {
                    assert(r1[i] == r0[i] && r1[j] == r0[j]);
                }
            }
            assert forall|y: Seq<char>| #[trigger] r1.contains(y) <==> (r.contains(y) || y == x) by {
                if r1.contains(y) {
                    let k = choose|k: int| 0 <= k < r1.len() && r1[k] == y;
                    if k < r0.len() {
                        assert(r0[k] == y);
                        assert(r0.contains(y));
                        if init.contains(y) {
                            let m = choose|m: int| 0 <= m < init.len() && init[m] == y;
                            assert(r[m] == y);
                        }
                    } else {
                        assert(r[r.len() - 1] == y);
                    }
                }
                if r.contains(y) {
                    let k = choose|k: int| 0 <= k < r.len() && r[k] == y;
                    if k < r.len() - 1 {
                        assert(init[k] == y);
                        assert(init.contains(y));
                        assert(r0.contains(y));
                        let m = choose|m: int| 0 <= m < r0.len() && r0[m] == y;
                        assert(r1[m] == y);
                    } else {
                        assert(r1[r0.len() as int] == y);
                    }
                }
                if y == x {
                    assert(r0.contains(y));
                    let m = choose|m: int| 0 <= m < r0.len() && r0[m] == y;
                    assert(r1[m] == y);
                }
            }
            assert(strictly_sorted(r1) && forall|y: Seq<char>| #[trigger] r1.contains(y) <==> (r.contains(y) || y == x));
        }
    }
}

/// Every sequence of values has its distinct values in increasing order.
pub proof fn lemma_sorted_set(vals: Seq<Seq<char>>)
    ensures
        strictly_sorted(sorted_set(vals)),
        forall|x: Seq<char>| #[trigger] sorted_set(vals).contains(x) <==> vals.contains(x),
    decreases vals.len(),
{
    lemma_sorted_set_exists(vals);
}

proof fn lemma_sorted_set_exists(vals: Seq<Seq<char>>)
    ensures
        exists|r: Seq<Seq<char>>| strictly_sorted(r) && forall|x: Seq<char>| r.contains(x) <==> vals.contains(x),
    decreases vals.len(),
{
    if vals.len() == 0 {
        let r = Seq::<Seq<char>>::empty();
        assert(strictly_sorted(r) && forall|x: Seq<char>| r.contains(x) <==> vals.contains(x));
    } else {
        let init = vals.drop_last();
        let x = vals.last();
        lemma_sorted_set_exists(init);
        let r0 = choose|r: Seq<Seq<char>>| strictly_sorted(r) && forall|y: Seq<char>| r.contains(y) <==> init.contains(y);
        assert forall|y: Seq<char>| vals.contains(y) <==> (init.contains(y) || y == x) by {
            if vals.contains(y) {
                let k = choose|k: int| 0 <= k < vals.len() && vals[k] == y;
                if k < init.len() {
                    assert(init[k] == y);
                }
            }
            if init.contains(y) {
                let k = choose|k: int| 0 <= k < init.len() && init[k] == y;
                assert(vals[k] == y);
            }
            if y == x {
                assert(vals[vals.len() - 1] == y);
            }
        }
        if r0.contains(x) {
            assert(strictly_sorted(r0) && forall|y: Seq<char>| r0.contains(y) <==> vals.contains(y));
        } else {
            lemma_insert_keeps_sorted(r0, x);
            let r1 = choose|r1: Seq<Seq<char>>|
                strictly_sorted(r1) && forall|y: Seq<char>| #[trigger] r1.contains(y) <==> (r0.contains(y) || y == x);
            assert(strictly_sorted(r1) && forall|y: Seq<char>| r1.contains(y) <==> vals.contains(y));
        }
    }
}

/// The distinct values of `vals` in increasing order.
pub fn sorted_unique_values(vals: &Vec<String>) -> (r: Vec<String>)
    ensures
        texts(r@) == sorted_set(texts(vals@)),
{
    let ghost vs = texts(vals@);
    let mut out: Vec<String> = Vec::new();
    let mut k: usize = 0;
    while k < vals.len()
        invariant
            k <= vals@.len(),
            vs == texts(vals@),
            strictly_sorted(texts(out@)),
            forall|x: Seq<char>| texts(out@).contains(x) <==> vs.take(k as int).contains(x),
        decreases vals.len() - k,
    {
        let ghost pre = vs.take(k as int);
        let ghost post = vs.take(k + 1);
        proof {
            assert(post =~= pre.push(vs[k as int]));
            assert(vs[k as int] == vals@[k as int]@);
        }
        insert_sorted(&mut out, &vals[k]);
        proof {
            assert forall|x: Seq<char>| texts(out@).contains(x) <==> post.contains(x) by {
                if post.contains(x) {
                    let i = choose|i: int| 0 <= i < post.len() && post[i] == x;
                    if i < k {
                        assert(pre[i] == x);
                    }
                }
                if pre.contains(x) {
                    let i = choose|i: int| 0 <= i < pre.len() && pre[i] == x;
                    assert(post[i] == x);
                }
                if x == vals@[k as int]@ {
                    assert(post[k as int] == x);
                }
            }
        }
        k = k + 1;
    }
    proof {
        assert(vs.take(vals@.len() as int) =~= vs);
        let ov = texts(out@);
        let ss = sorted_set(vs);
        assert(strictly_sorted(ov) && forall|x: Seq<char>| ov.contains(x) <==> vs.contains(x));
        assert(strictly_sorted(ss) && forall|x: Seq<char>| ss.contains(x) <==> vs.contains(x));
        lemma_sorted_unique(ov, ss);
    }
    out
}

} // verus!
