//! The calls into tree-sitter: a parser for Python source and a cursor
//! that walks the tree it builds. Each call stands behind a small trusted
//! function, stated over a model of the tree: its visible nodes in the
//! order a cursor meets them (pre-order), each with its depth below the
//! root. The walk that collects the nodes is verified.
use vstd::prelude::*;
use crate::paths::opt_chars;
use crate::syntax::RawNode;
use crate::text::{byte_offset, byte_offsets, byte_text, byte_text_exec, chars_of};

verus! {

#[verifier::external_type_specification]
#[verifier::external_body]
pub struct ExParser(tree_sitter::Parser);

#[verifier::external_type_specification]
#[verifier::external_body]
pub struct ExTree(tree_sitter::Tree);

#[verifier::external_type_specification]
#[verifier::external_body]
pub struct ExTreeCursor<'a>(tree_sitter::TreeCursor<'a>);

#[verifier::external_type_specification]
#[verifier::external_body]
pub struct ExLanguageError(tree_sitter::LanguageError);

/// One node of a tree as a cursor meets it: its kind, the field under which
/// it hangs from its parent, its start and end byte, its start and end row,
/// whether it is an extra, and its depth below the root.
pub type NodeRecord = (Seq<char>, Option<Seq<char>>, usize, usize, usize, usize, bool, nat);

/// The nodes of the tree that tree-sitter 0.24 with the Python grammar 0.23
/// builds for the text `source`, in the order a cursor meets them.
pub uninterp spec fn python_nodes(source: Seq<char>) -> Seq<NodeRecord>;

/// What a tree holds: its nodes in the order a cursor meets them.
pub uninterp spec fn tree_nodes(t: tree_sitter::Tree) -> Seq<NodeRecord>;

/// The nodes of the tree that a cursor walks.
pub uninterp spec fn cursor_nodes(c: tree_sitter::TreeCursor) -> Seq<NodeRecord>;

/// The position among `cursor_nodes` of the node the cursor is on.
pub uninterp spec fn cursor_index(c: tree_sitter::TreeCursor) -> int;

/// Whether a parser has neither a timeout nor a cancellation flag.
pub uninterp spec fn parser_unlimited(p: tree_sitter::Parser) -> bool;

/// Whether a parser has the Python grammar set, and neither a timeout nor a
/// cancellation flag.
pub uninterp spec fn parser_ready(p: tree_sitter::Parser) -> bool;

/// The depth of node `i`.
pub open spec fn depth_at(ns: Seq<NodeRecord>, i: int) -> nat {
    ns[i].7
}

/// The shape every such node list has: a root at depth 0 first, every later
/// node at least one level down and at most one level below the node before.
pub open spec fn records_wf(ns: Seq<NodeRecord>) -> bool {
    &&& ns.len() >= 1
    &&& depth_at(ns, 0) == 0
    &&& forall|i: int| 0 < i < ns.len() ==> 1 <= #[trigger] depth_at(ns, i) <= depth_at(ns, i - 1) + 1
}

/// Whether every node starts on a row no later than the one it ends on.
pub open spec fn rows_ordered(ns: Seq<NodeRecord>) -> bool {
    forall|i: int| 0 <= i < ns.len() ==> (#[trigger] ns[i]).4 <= ns[i].5
}

/// The first node from `j` on that is not deeper than node `i` (the number
/// of nodes where there is none).
pub open spec fn not_deeper_from(ns: Seq<NodeRecord>, i: int, j: int) -> int
    decreases ns.len() - j,
{
    if j < 0 || j >= ns.len() {
        ns.len() as int
    } else if depth_at(ns, j) <= depth_at(ns, i) {
        j
    } else {
        not_deeper_from(ns, i, j + 1)
    }
}

/// Where the subtree of node `i` ends: the nodes `[i, subtree_stop(i))`.
pub open spec fn subtree_stop(ns: Seq<NodeRecord>, i: int) -> int {
    not_deeper_from(ns, i, i + 1)
}

/// The last node at or before `j` at depth `d` (-1 where there is none).
pub open spec fn last_at_depth(ns: Seq<NodeRecord>, j: int, d: nat) -> int
    decreases j + 1,
{
    if j < 0 {
        -1
    } else if depth_at(ns, j) == d {
        j
    } else {
        last_at_depth(ns, j - 1, d)
    }
}

/// Calls `Parser::new`: a parser with no language, no timeout and no
/// cancellation flag.
#[verifier::external_body]
pub(crate) fn new_parser() -> (p: tree_sitter::Parser)
    ensures
        parser_unlimited(p),
{
    tree_sitter::Parser::new()
}

/// Calls `Parser::set_language` with the Python grammar of
/// `tree_sitter_python`. That call fails only when the grammar's ABI version
/// lies outside `MIN_COMPATIBLE_LANGUAGE_VERSION..=LANGUAGE_VERSION` of
/// tree-sitter (13..=14 in tree-sitter 0.24); the Python grammar 0.23 is
/// built at version 14, so it succeeds, and the parser then parses Python.
#[verifier::external_body]
pub(crate) fn set_python_language(p: &mut tree_sitter::Parser) -> (r: Result<(), tree_sitter::LanguageError>)
    requires
        parser_unlimited(*old(p)),
    ensures
        r is Ok,
        parser_ready(*final(p)),
{
    p.set_language(&tree_sitter_python::LANGUAGE.into())
}

/// Calls `Parser::parse` on the whole of `source` with no earlier tree.
/// With a language set and neither a timeout nor a cancellation flag,
/// tree-sitter always gives a tree (it gives none only without a language,
/// or when cancelled or out of time), and the parser keeps its settings. The
/// tree is the one the Python grammar builds for `source`, named
/// `python_nodes`; its node list has the shape of every tree. A node ends
/// where it starts plus its size, so its end row is not before its start
/// row, as long as the rows, which tree-sitter keeps as `u32`, cannot wrap:
/// for a text of at most `u32::MAX` bytes.
#[verifier::external_body]
pub(crate) fn parse_text(p: &mut tree_sitter::Parser, source: &str) -> (r: Option<tree_sitter::Tree>)
    requires
        parser_ready(*old(p)),
    ensures
        parser_ready(*final(p)),
        r is Some,
        tree_nodes(r->Some_0) == python_nodes(source@),
        records_wf(tree_nodes(r->Some_0)),
        crate::text::utf8_len(source@) <= u32::MAX ==> rows_ordered(tree_nodes(r->Some_0)),
{
    p.parse(source, None)
}

/// Calls `Tree::walk`: a cursor on the root node.
#[verifier::external_body]
pub(crate) fn tree_walk<'a>(t: &'a tree_sitter::Tree) -> (c: tree_sitter::TreeCursor<'a>)
    ensures
        cursor_nodes(c) == tree_nodes(*t),
        cursor_index(c) == 0,
{
    t.walk()
}

/// Calls `Node::descendant_count` on the cursor's node: the number of nodes
/// of its subtree, itself included.
#[verifier::external_body]
pub(crate) fn descendant_count(c: &tree_sitter::TreeCursor) -> (r: usize)
    requires
        0 <= cursor_index(*c) < cursor_nodes(*c).len(),
    ensures
        r == subtree_stop(cursor_nodes(*c), cursor_index(*c)) - cursor_index(*c),
{
    c.node().descendant_count()
}

/// Calls `TreeCursor::goto_first_child`: moves to the first child and says
/// whether there was one (the next node, one level down).
#[verifier::external_body]
pub(crate) fn goto_first_child(c: &mut tree_sitter::TreeCursor) -> (r: bool)
    requires
        0 <= cursor_index(*old(c)) < cursor_nodes(*old(c)).len(),
    ensures
        cursor_nodes(*final(c)) == cursor_nodes(*old(c)),
        r == (cursor_index(*old(c)) + 1 < cursor_nodes(*old(c)).len() && depth_at(cursor_nodes(*old(c)), cursor_index(*old(c)) + 1)
            == depth_at(cursor_nodes(*old(c)), cursor_index(*old(c))) + 1),
        cursor_index(*final(c)) == if r {
            cursor_index(*old(c)) + 1
        } else {
            cursor_index(*old(c))
        },
{
    c.goto_first_child()
}

/// Calls `TreeCursor::goto_next_sibling`: moves to the next sibling and
/// says whether there was one (the node where the current node's subtree
/// ends, at the same depth).
#[verifier::external_body]
pub(crate) fn goto_next_sibling(c: &mut tree_sitter::TreeCursor) -> (r: bool)
    requires
        0 <= cursor_index(*old(c)) < cursor_nodes(*old(c)).len(),
    ensures
        cursor_nodes(*final(c)) == cursor_nodes(*old(c)),
        r == (subtree_stop(cursor_nodes(*old(c)), cursor_index(*old(c))) < cursor_nodes(*old(c)).len() && depth_at(
            cursor_nodes(*old(c)),
            subtree_stop(cursor_nodes(*old(c)), cursor_index(*old(c))),
        ) == depth_at(cursor_nodes(*old(c)), cursor_index(*old(c)))),
        cursor_index(*final(c)) == if r {
            subtree_stop(cursor_nodes(*old(c)), cursor_index(*old(c)))
        } else {
            cursor_index(*old(c))
        },
{
    c.goto_next_sibling()
}

/// Calls `TreeCursor::goto_parent`: moves to the parent and says whether
/// there was one (the last node before, one level up).
#[verifier::external_body]
pub(crate) fn goto_parent(c: &mut tree_sitter::TreeCursor) -> (r: bool)
    requires
        0 <= cursor_index(*old(c)) < cursor_nodes(*old(c)).len(),
    ensures
        cursor_nodes(*final(c)) == cursor_nodes(*old(c)),
        r == (depth_at(cursor_nodes(*old(c)), cursor_index(*old(c))) > 0),
        cursor_index(*final(c)) == if r {
            last_at_depth(
                cursor_nodes(*old(c)),
                cursor_index(*old(c)) - 1,
                (depth_at(cursor_nodes(*old(c)), cursor_index(*old(c))) - 1) as nat,
            )
        } else {
            cursor_index(*old(c))
        },
{
    c.goto_parent()
}

/// Calls `TreeCursor::field_name`: the field under which the cursor's node
/// hangs from its parent.
#[verifier::external_body]
pub(crate) fn field_name(c: &tree_sitter::TreeCursor) -> (r: Option<String>)
    ensures
        opt_chars(r) == cursor_nodes(*c)[cursor_index(*c)].1,
{
    c.field_name().map(|f| f.to_string())
}

/// Calls `Node::kind` on the cursor's node.
#[verifier::external_body]
pub(crate) fn node_kind(c: &tree_sitter::TreeCursor) -> (r: String)
    ensures
        r@ == cursor_nodes(*c)[cursor_index(*c)].0,
{
    c.node().kind().to_string()
}

/// Calls `Node::start_byte` on the cursor's node: the byte offset in the
/// parsed text at which the node starts.
#[verifier::external_body]
pub(crate) fn start_byte(c: &tree_sitter::TreeCursor) -> (r: usize)
    ensures
        r == cursor_nodes(*c)[cursor_index(*c)].2,
{
    c.node().start_byte()
}

/// Calls `Node::end_byte` on the cursor's node: the byte offset in the
/// parsed text at which the node ends.
#[verifier::external_body]
pub(crate) fn end_byte(c: &tree_sitter::TreeCursor) -> (r: usize)
    ensures
        r == cursor_nodes(*c)[cursor_index(*c)].3,
{
    c.node().end_byte()
}

/// Calls `Node::start_position` on the cursor's node and takes its row,
/// which tree-sitter holds as a `u32`.
#[verifier::external_body]
pub(crate) fn start_row(c: &tree_sitter::TreeCursor) -> (r: usize)
    ensures
        r == cursor_nodes(*c)[cursor_index(*c)].4,
        r <= u32::MAX,
{
    c.node().start_position().row
}

/// Calls `Node::end_position` on the cursor's node and takes its row,
/// which tree-sitter holds as a `u32`.
#[verifier::external_body]
pub(crate) fn end_row(c: &tree_sitter::TreeCursor) -> (r: usize)
    ensures
        r == cursor_nodes(*c)[cursor_index(*c)].5,
        r <= u32::MAX,
{
    c.node().end_position().row
}

/// Calls `Node::is_extra` on the cursor's node.
#[verifier::external_body]
pub(crate) fn is_extra(c: &tree_sitter::TreeCursor) -> (r: bool)
    ensures
        r == cursor_nodes(*c)[cursor_index(*c)].6,
{
    c.node().is_extra()
}

/// Whether the collected node `r` is the node `n` of a tree of `source`:
/// the same kind, field, offsets, rows, extra flag and depth, and the text
/// of `source` between its byte offsets.
pub open spec fn raw_matches(r: RawNode, n: NodeRecord, source: Seq<char>) -> bool {
    &&& r.kind@ == n.0
    &&& opt_chars(r.field) == n.1
    &&& r.start_byte == n.2
    &&& r.end_byte == n.3
    &&& r.start_row == n.4
    &&& r.end_row == n.5
    &&& r.is_extra == n.6
    &&& r.depth == n.7
    &&& r.text@ == byte_text(source, n.2 as int, n.3 as int)
}

/// The nodes of a subtree are deeper than its root, and the subtree ends at
/// the first node that is not.
proof fn lemma_subtree_stop(ns: Seq<NodeRecord>, cur: int, last: int, j: int)
    requires
        0 <= cur < j <= last + 1 <= ns.len(),
        forall|m: int| cur < m <= last ==> #[trigger] depth_at(ns, m) > depth_at(ns, cur),
        last + 1 == ns.len() || depth_at(ns, last + 1) <= depth_at(ns, cur),
    ensures
        not_deeper_from(ns, cur, j) == last + 1,
    decreases last + 1 - j,
{
    if j <= last {
        lemma_subtree_stop(ns, cur, last, j + 1);
    }
}

/// Above a node at depth greater than `k` lies a last node at depth `k`,
/// with only deeper nodes between them.
proof fn lemma_last_at_depth(ns: Seq<NodeRecord>, i: int, k: nat)
    requires
        records_wf(ns),
        0 <= i < ns.len(),
        k < depth_at(ns, i),
    ensures
        0 <= last_at_depth(ns, i - 1, k) < i,
        depth_at(ns, last_at_depth(ns, i - 1, k)) == k,
        forall|j: int| last_at_depth(ns, i - 1, k) < j < i ==> #[trigger] depth_at(ns, j) > k,
    decreases i,
{
    if i > 0 {
        assert(1 <= depth_at(ns, i) <= depth_at(ns, i - 1) + 1);
        if depth_at(ns, i - 1) != k {
            lemma_last_at_depth(ns, i - 1, k);
        }
    }
}

/// The subtree of the root holds every node.
pub proof fn lemma_root_subtree(ns: Seq<NodeRecord>)
    requires
        records_wf(ns),
    ensures
        subtree_stop(ns, 0) == ns.len(),
{
    assert forall|m: int| 0 < m <= ns.len() - 1 implies #[trigger] depth_at(ns, m) > depth_at(ns, 0) by {
        assert(1 <= depth_at(ns, m));
    }
    lemma_subtree_stop(ns, 0, ns.len() - 1, 1);
}

/// No node lies deeper than its position.
proof fn lemma_depth_bound(ns: Seq<NodeRecord>, i: int)
    requires
        records_wf(ns),
        0 <= i < ns.len(),
    ensures
        depth_at(ns, i) <= i,
    decreases i,
{
    if i > 0 {
        assert(depth_at(ns, i) <= depth_at(ns, i - 1) + 1);
        lemma_depth_bound(ns, i - 1);
    }
}

/// The node under the cursor, at the given depth; its text is cut from
/// the characters `cs` of the source (whose byte offsets are `offs`) between
/// the node's byte offsets.
fn raw_node(c: &tree_sitter::TreeCursor, cs: &Vec<char>, offs: &Vec<usize>, depth: usize) -> (r: RawNode)
    requires
        1 <= offs@.len() <= cs@.len() + 1,
        forall|k: int| 0 <= k < offs@.len() ==> #[trigger] offs@[k] == byte_offset(cs@, k),
        offs@.len() <= cs@.len() ==> byte_offset(cs@, offs@.len() as int) > usize::MAX,
        depth == depth_at(cursor_nodes(*c), cursor_index(*c)),
    ensures
        raw_matches(r, cursor_nodes(*c)[cursor_index(*c)], cs@),
        r.start_row <= u32::MAX,
        r.end_row <= u32::MAX,
{
    let sb = start_byte(c);
    let eb = end_byte(c);
    RawNode {
        kind: node_kind(c),
        field: field_name(c),
        text: byte_text_exec(cs, offs, sb, eb),
        start_byte: sb,
        end_byte: eb,
        start_row: start_row(c),
        end_row: end_row(c),
        is_extra: is_extra(c),
        depth,
    }
}

/// The nodes of the tree under the cursor, which stands on the root of a
/// tree of `source` with `limit` nodes: all of them, in the order the
/// cursor meets them.
#[verifier::rlimit(80)]
#[verifier::spinoff_prover]
pub(crate) fn walk_nodes(c: &mut tree_sitter::TreeCursor, source: &str, limit: usize) -> (r: Vec<RawNode>)
    requires
        records_wf(cursor_nodes(*old(c))),
        cursor_index(*old(c)) == 0,
        limit == cursor_nodes(*old(c)).len(),
    ensures
        r@.len() == cursor_nodes(*old(c)).len(),
        forall|i: int| 0 <= i < r@.len() ==> raw_matches(#[trigger] r@[i], cursor_nodes(*old(c))[i], source@),
        forall|i: int| 0 <= i < r@.len() ==> (#[trigger] r@[i]).start_row <= u32::MAX && r@[i].end_row <= u32::MAX,
{
    let ghost ns = cursor_nodes(*c);
    let cs = chars_of(source);
    let offs = byte_offsets(&cs);
    let mut out: Vec<RawNode> = Vec::new();
    out.push(raw_node(c, &cs, &offs, 0));
    let mut depth: usize = 0;
    let mut steps: usize = 0;
    while steps < limit
        invariant
            records_wf(ns),
            ns == cursor_nodes(*old(c)),
            limit == ns.len(),
            cursor_nodes(*c) == ns,
            cs@ == source@,
            1 <= offs@.len() <= cs@.len() + 1,
            forall|k: int| 0 <= k < offs@.len() ==> #[trigger] offs@[k] == byte_offset(cs@, k),
            offs@.len() <= cs@.len() ==> byte_offset(cs@, offs@.len() as int) > usize::MAX,
            out@.len() == steps + 1,
            out@.len() <= ns.len(),
            cursor_index(*c) == out@.len() - 1,
            depth == depth_at(ns, out@.len() - 1),
            forall|i: int| 0 <= i < out@.len() ==> raw_matches(#[trigger] out@[i], ns[i], source@),
            forall|i: int| 0 <= i < out@.len() ==> (#[trigger] out@[i]).start_row <= u32::MAX && out@[i].end_row <= u32::MAX,
        decreases limit - steps,
    {
        let ghost last = out@.len() - 1;
        steps = steps + 1;
        if goto_first_child(c) {
            proof {
                lemma_depth_bound(ns, last + 1);
            }
            depth = depth + 1;
            out.push(raw_node(c, &cs, &offs, depth));
        } else {
            proof {
                if last + 1 < ns.len() {
                    assert(depth_at(ns, last + 1) <= depth_at(ns, last) + 1);
                }
            }
            let mut moved = false;
            while depth > 0 && !moved
                invariant
                    records_wf(ns),
                    limit == ns.len(),
                    cursor_nodes(*c) == ns,
                    cs@ == source@,
                    1 <= offs@.len() <= cs@.len() + 1,
                    forall|k: int| 0 <= k < offs@.len() ==> #[trigger] offs@[k] == byte_offset(cs@, k),
                    offs@.len() <= cs@.len() ==> byte_offset(cs@, offs@.len() as int) > usize::MAX,
                    0 <= last < ns.len(),
                    moved ==> out@.len() == last + 2 && cursor_index(*c) == last + 1 && depth == depth_at(ns, last + 1),
                    !moved ==> out@.len() == last + 1,
                    !moved ==> 0 <= cursor_index(*c) <= last && depth == depth_at(ns, cursor_index(*c)),
                    !moved ==> forall|m: int| cursor_index(*c) < m <= last ==> #[trigger] depth_at(ns, m) > depth_at(ns, cursor_index(*c)),
                    !moved ==> (last + 1 == ns.len() || depth_at(ns, last + 1) <= depth_at(ns, cursor_index(*c))),
                    out@.len() <= ns.len(),
                    steps == last + 1,
                    forall|i: int| 0 <= i < out@.len() ==> raw_matches(#[trigger] out@[i], ns[i], source@),
                    forall|i: int| 0 <= i < out@.len() ==> (#[trigger] out@[i]).start_row <= u32::MAX && out@[i].end_row <= u32::MAX,
                decreases depth + (if moved { 0int } else { 1int }),
            {
                let ghost cur = cursor_index(*c);
                proof {
                    lemma_subtree_stop(ns, cur, last, cur + 1);
                }
                if goto_next_sibling(c) {
                    out.push(raw_node(c, &cs, &offs, depth));
                    moved = true;
                } else {
                    assert(cur > 0) by {
                        if cur == 0 {
                            assert(depth_at(ns, 0) == 0);
                        }
                    }
                    proof {
                        lemma_last_at_depth(ns, cur, (depth_at(ns, cur) - 1) as nat);
                    }
                    goto_parent(c);
                    depth = depth - 1;
                }
            }
            if !moved {
                proof {
                    let cur = cursor_index(*c);
                    assert(depth == 0);
                    if cur > 0 {
                        assert(1 <= depth_at(ns, cur));
                    }
                    assert(cur == 0);
                    if last + 1 < ns.len() {
                        assert(1 <= depth_at(ns, last + 1));
                        assert(depth_at(ns, last + 1) <= depth_at(ns, 0));
                    }
                    assert(out@.len() == ns.len());
                }
                return out;
            }
        }
    }
    proof {
        assert(false);
    }
    out
}

} // verus!
