//! A concrete syntax tree held as plain data: its nodes in pre-order, each
//! with its depth, the end of its subtree and the list of its children.
use vstd::prelude::*;
use crate::text::str_eq;

verus! {

/// One node as a pre-order walk of a parsed file meets it.
#[derive(Debug, Clone)]
pub struct RawNode {
    pub kind: String,
    /// The name of the field under which the node hangs from its parent.
    pub field: Option<String>,
    /// The source text that the node spans.
    pub text: String,
    /// The byte offsets in the source at which the node starts and ends.
    pub start_byte: usize,
    pub end_byte: usize,
    pub start_row: usize,
    pub end_row: usize,
    /// Whether the node is an extra (such as a comment) that may appear anywhere.
    pub is_extra: bool,
    /// The number of ancestors of the node.
    pub depth: usize,
}

/// One node of a syntax tree.
#[derive(Debug, Clone)]
pub struct SyntaxNode {
    pub kind: String,
    pub field: Option<String>,
    pub text: String,
    pub start_row: usize,
    pub end_row: usize,
    pub is_extra: bool,
    pub depth: usize,
    /// One past the last node of this node's subtree: the subtree is the
    /// nodes `[index, end)`.
    pub end: usize,
    /// The indices of the node's children, in order.
    pub children: Vec<usize>,
}

/// A syntax tree whose nodes stand in pre-order; node 0 is the root.
#[derive(Debug, Clone)]
pub struct SyntaxTree {
    pub nodes: Vec<SyntaxNode>,
}

/// The end of the subtree of node `i`: the first later node that is not
/// deeper than `i`, or the number of nodes.
pub open spec fn is_subtree_end(ns: Seq<SyntaxNode>, i: int, e: int) -> bool {
    &&& i < e <= ns.len()
    &&& forall|j: int| i < j < e ==> #[trigger] ns[j].depth > ns[i].depth
    &&& (e == ns.len() || ns[e].depth <= ns[i].depth)
}

/// The nodes in `(i, j)` exactly one level deeper than node `i`, in order.
pub open spec fn kids(ns: Seq<SyntaxNode>, i: int, j: int) -> Seq<usize>
    decreases j - i,
{
    if j <= i + 1 {
        Seq::empty()
    } else {
        let p = kids(ns, i, j - 1);
        if ns[j - 1].depth == ns[i].depth + 1 {
            p.push((j - 1) as usize)
        } else {
            p
        }
    }
}

/// The same for depths given as a sequence of raw nodes.
pub open spec fn raw_kids(rs: Seq<RawNode>, i: int, j: int) -> Seq<usize>
    decreases j - i,
{
    if j <= i + 1 {
        Seq::empty()
    } else {
        let p = raw_kids(rs, i, j - 1);
        if rs[j - 1].depth == rs[i].depth + 1 {
            p.push((j - 1) as usize)
        } else {
            p
        }
    }
}

/// The tree's structure is the one its depths describe: each node's `end`
/// closes its subtree and its children are the nodes of the subtree one
/// level deeper.
pub open spec fn wf(t: SyntaxTree) -> bool {
    let ns = t.nodes@;
    forall|i: int|
        0 <= i < ns.len() ==> is_subtree_end(ns, i, #[trigger] ns[i].end as int) && ns[i].children@ == kids(
            ns,
            i,
            ns[i].end as int,
        )
}

/// The node `i` of `t`.
pub open spec fn node(t: SyntaxTree, i: int) -> SyntaxNode {
    t.nodes@[i]
}

/// The kind of node `i`.
pub open spec fn kind(t: SyntaxTree, i: int) -> Seq<char> {
    t.nodes@[i].kind@
}

/// The text of node `i`.
pub open spec fn text(t: SyntaxTree, i: int) -> Seq<char> {
    t.nodes@[i].text@
}

/// The children of node `i`.
pub open spec fn children(t: SyntaxTree, i: int) -> Seq<usize> {
    t.nodes@[i].children@
}

/// The end of the subtree of node `i`.
pub open spec fn end(t: SyntaxTree, i: int) -> int {
    t.nodes@[i].end as int
}

/// Node `j` lies in the subtree of node `i` (or is `i`).
pub open spec fn in_subtree(t: SyntaxTree, i: int, j: int) -> bool {
    i <= j < end(t, i)
}

/// The position in `cs` (the first `n`) of the first child that hangs under
/// the field `f`.
pub open spec fn first_with_field(t: SyntaxTree, cs: Seq<usize>, f: Seq<char>, n: int) -> Option<int>
    decreases n,
{
    if n <= 0 {
        None
    } else {
        match first_with_field(t, cs, f, n - 1) {
            Some(k) => Some(k),
            None => match t.nodes@[cs[n - 1] as int].field {
                Some(g) => if g@ == f {
                    Some(n - 1)
                } else {
                    None
                },
                None => None,
            },
        }
    }
}

/// The first child of node `i` that hangs under the field `f`
/// (`child_by_field_name`).
pub open spec fn field_child(t: SyntaxTree, i: int, f: Seq<char>) -> Option<int> {
    let cs = children(t, i);
    match first_with_field(t, cs, f, cs.len() as int) {
        Some(k) => Some(cs[k] as int),
        None => None,
    }
}

proof fn lemma_first_with_field(t: SyntaxTree, cs: Seq<usize>, f: Seq<char>, n: int)
    requires
        0 <= n <= cs.len(),
    ensures
        first_with_field(t, cs, f, n) matches Some(k) ==> 0 <= k < n,
    decreases n,
{
    if n > 0 {
        lemma_first_with_field(t, cs, f, n - 1);
    }
}

proof fn lemma_first_with_field_stable(t: SyntaxTree, cs: Seq<usize>, f: Seq<char>, a: int, b: int)
    requires
        0 <= a <= b,
        first_with_field(t, cs, f, a) is Some,
    ensures
        first_with_field(t, cs, f, b) == first_with_field(t, cs, f, a),
    decreases b - a,
{
    if a < b {
        lemma_first_with_field_stable(t, cs, f, a, b - 1);
    }
}

proof fn lemma_kids_bounds(ns: Seq<SyntaxNode>, i: int, j: int)
    requires
        0 <= i,
        j <= usize::MAX + 1,
    ensures
        forall|k: int| 0 <= k < kids(ns, i, j).len() ==> i < #[trigger] kids(ns, i, j)[k] < j && ns[kids(ns, i, j)[k] as int].depth == ns[i].depth + 1,
    decreases j - i,
{
    if j > i + 1 {
        lemma_kids_bounds(ns, i, j - 1);
        let p = kids(ns, i, j - 1);
        assert forall|k: int| 0 <= k < kids(ns, i, j).len() implies i < #[trigger] kids(ns, i, j)[k] < j && ns[kids(ns, i, j)[k] as int].depth == ns[i].depth + 1 by {
            if k < p.len() {
                assert(kids(ns, i, j)[k] == p[k]);
            }
        }
    }
}

/// The children of a node lie in its subtree, after it, and their subtrees
/// lie inside its subtree.
pub proof fn lemma_child_nested(t: SyntaxTree, i: int, k: int)
    requires
        wf(t),
        0 <= i < t.nodes@.len(),
        0 <= k < children(t, i).len(),
    ensures
        i < children(t, i)[k] < end(t, i),
        end(t, children(t, i)[k] as int) <= end(t, i),
        t.nodes@[children(t, i)[k] as int].depth == t.nodes@[i].depth + 1,
{
    let ns = t.nodes@;
    assert(is_subtree_end(ns, i, ns[i].end as int));
    assert(ns[i].end <= usize::MAX);
    lemma_kids_bounds(ns, i, ns[i].end as int);
    let c = children(t, i)[k] as int;
    assert(is_subtree_end(ns, c, ns[c].end as int));
    if ns[c].end > ns[i].end {
        let e = ns[i].end as int;
        assert(e < ns.len());
        assert(ns[e].depth > ns[c].depth);
    }
}

/// Every node of a subtree lies inside the subtree of its root.
pub proof fn lemma_subtree_nested(t: SyntaxTree, i: int, j: int)
    requires
        wf(t),
        0 <= i < t.nodes@.len(),
        i <= j < end(t, i),
    ensures
        end(t, j) <= end(t, i),
{
    let ns = t.nodes@;
    assert(is_subtree_end(ns, i, ns[i].end as int));
    assert(is_subtree_end(ns, j, ns[j].end as int));
    if j > i && ns[j].end > ns[i].end {
        let e = ns[i].end as int;
        assert(ns[e].depth > ns[j].depth);
        assert(ns[j].depth > ns[i].depth);
    }
}

impl SyntaxTree {
    /// Indexes raw nodes met in pre-order into a tree: each node's subtree
    /// ends at the first later node that is not deeper, and its children
    /// are the nodes of its subtree one level deeper.
    pub fn from_raw(raw: &Vec<RawNode>) -> (t: SyntaxTree)
        ensures
            wf(t),
            t.nodes@.len() == raw@.len(),
            forall|i: int|
                0 <= i < raw@.len() ==> {
                    let n = #[trigger] t.nodes@[i];
                    let r = raw@[i];
                    &&& n.kind@ == r.kind@
                    &&& n.field == r.field
                    &&& n.text@ == r.text@
                    &&& n.start_row == r.start_row
                    &&& n.end_row == r.end_row
                    &&& n.is_extra == r.is_extra
                    &&& n.depth == r.depth
                },
    {
        let n = raw.len();
        let mut nodes: Vec<SyntaxNode> = Vec::new();
        let mut i: usize = 0;
        while i < n
            invariant
                i <= n == raw@.len(),
                nodes@.len() == i,
                forall|a: int|
                    0 <= a < i ==> {
                        let x = #[trigger] nodes@[a];
                        let r = raw@[a];
                        &&& x.kind@ == r.kind@
                        &&& x.field == r.field
                        &&& x.text@ == r.text@
                        &&& x.start_row == r.start_row
                        &&& x.end_row == r.end_row
                        &&& x.is_extra == r.is_extra
                        &&& x.depth == r.depth
                        &&& a < x.end <= n
                        &&& forall|j: int| a < j < x.end ==> #[trigger] raw@[j].depth > r.depth
                        &&& (x.end == n || raw@[x.end as int].depth <= r.depth)
                        &&& x.children@ == raw_kids(raw@, a, x.end as int)
                    },
            decreases n - i,
        {
            let d = raw[i].depth;
            let mut j: usize = i + 1;
            while j < n && raw[j].depth > d
                invariant
                    i < j <= n == raw@.len(),
                    d == raw@[i as int].depth,
                    forall|k: int| i < k < j ==> #[trigger] raw@[k].depth > d,
                decreases n - j,
            {
                j = j + 1;
            }
            let mut kids_v: Vec<usize> = Vec::new();
            let mut k: usize = i + 1;
            while k < j
                invariant
                    i < k <= j <= n == raw@.len(),
                    d == raw@[i as int].depth,
                    kids_v@ == raw_kids(raw@, i as int, k as int),
                decreases j - k,
            {
                if raw[k].depth > d && raw[k].depth - 1 == d {
                    kids_v.push(k);
                }
                k = k + 1;
            }
            let r = &raw[i];
            let node = SyntaxNode {
                kind: r.kind.clone(),
                field: r.field.clone(),
                text: r.text.clone(),
                start_row: r.start_row,
                end_row: r.end_row,
                is_extra: r.is_extra,
                depth: d,
                end: j,
                children: kids_v,
            };
            nodes.push(node);
            i = i + 1;
        }
        let t = SyntaxTree { nodes };
        proof {
            let ns = t.nodes@;
            assert forall|a: int, b: int| 0 <= a < ns.len() && a < b <= ns.len() implies #[trigger] kids(ns, a, b) == raw_kids(raw@, a, b) by {
                lemma_kids_raw(ns, raw@, a, b);
            }
            assert forall|a: int| 0 <= a < ns.len() implies is_subtree_end(ns, a, #[trigger] ns[a].end as int) && ns[a].children@ == kids(
                ns,
                a,
                ns[a].end as int,
            ) by {
                assert forall|j: int| a < j < ns[a].end implies #[trigger] ns[j].depth > ns[a].depth by {
                    assert(raw@[j].depth > raw@[a].depth);
                    assert(ns[j].depth == raw@[j].depth);
                }
                if ns[a].end < ns.len() {
                    assert(ns[ns[a].end as int].depth == raw@[ns[a].end as int].depth);
                }
                assert(kids(ns, a, ns[a].end as int) == raw_kids(raw@, a, ns[a].end as int));
            }
        }
        t
    }
}

proof fn lemma_kids_raw(ns: Seq<SyntaxNode>, rs: Seq<RawNode>, i: int, j: int)
    requires
        ns.len() == rs.len(),
        0 <= i < j <= ns.len(),
        forall|a: int| 0 <= a < ns.len() ==> #[trigger] ns[a].depth == rs[a].depth,
    ensures
        kids(ns, i, j) == raw_kids(rs, i, j),
    decreases j - i,
{
    if j > i + 1 {
        lemma_kids_raw(ns, rs, i, j - 1);
        assert(ns[j - 1].depth == rs[j - 1].depth);
        assert(ns[i].depth == rs[i].depth);
    }
}

/// Whether node `i` has the kind `k`.
pub fn kind_is(t: &SyntaxTree, i: usize, k: &str) -> (r: bool)
    requires
        i < t.nodes@.len(),
    ensures
        r == (kind(*t, i as int) == k@),
{
    str_eq(t.nodes[i].kind.as_str(), k)
}

/// The first child of node `i` that hangs under the field `f`.
pub fn field_child_exec(t: &SyntaxTree, i: usize, f: &str) -> (r: Option<usize>)
    requires
        wf(*t),
        i < t.nodes@.len(),
    ensures
        r is None <==> field_child(*t, i as int, f@) is None,
        r matches Some(c) ==> field_child(*t, i as int, f@) == Some(c as int),
        r matches Some(c) ==> i < c < end(*t, i as int) && end(*t, c as int) <= end(*t, i as int),
{
    let cs = &t.nodes[i].children;
    let mut k: usize = 0;
    while k < cs.len()
        invariant
            i < t.nodes@.len(),
            cs@ == children(*t, i as int),
            k <= cs@.len(),
            wf(*t),
            first_with_field(*t, cs@, f@, k as int) is None,
        decreases cs.len() - k,
    {
        proof {
            lemma_child_nested(*t, i as int, k as int);
        }
        let c = cs[k];
        let hit = match &t.nodes[c].field {
            Some(g) => str_eq(g.as_str(), f),
            None => false,
        };
        if hit {
            proof {
                assert(first_with_field(*t, cs@, f@, k + 1) == Some(k as int));
                lemma_first_with_field_stable(*t, cs@, f@, k + 1, cs@.len() as int);
            }
            return Some(c);
        }
        k = k + 1;
    }
    None
}

} // verus!
