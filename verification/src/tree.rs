//! The syntax-tree model: an immutable snapshot of a parsed document.
//!
//! A tree is a single root node owning a forest of children. Each node
//! carries a kind tag (string and numeric identifier), a byte range, a
//! `has_changes` flag (its subtree differs from the previous tree after the
//! last edit cycle) and a `has_error` flag (the grammar could not fully
//! match this region).

use vstd::prelude::*;

verus! {

/// One node of a syntax tree, owning its children.
#[derive(Debug)]
pub struct SyntaxNode {
    /// Human-readable category tag of the node.
    pub kind: String,
    /// Numeric identifier of the kind, as the grammar numbers it.
    pub kind_id: u16,
    /// First byte of the node's span in the document.
    pub start_byte: usize,
    /// One past the last byte of the node's span.
    pub end_byte: usize,
    /// True if this subtree differs from the previous tree.
    pub has_changes: bool,
    /// True if the grammar could not fully match this subtree.
    pub has_error: bool,
    /// Child nodes, left to right.
    pub children: Vec<SyntaxNode>,
}

/// The plain value a traversal emits for one node.
#[derive(Debug, PartialEq, Eq)]
pub struct NodeMeta {
    pub kind: String,
    pub kind_id: u16,
    pub start_byte: usize,
    pub end_byte: usize,
    pub has_changes: bool,
    pub has_error: bool,
}

impl SyntaxNode {
    /// The emitted value of this node alone.
    pub open spec fn meta(self) -> NodeMeta {
        NodeMeta {
            kind: self.kind,
            kind_id: self.kind_id,
            start_byte: self.start_byte,
            end_byte: self.end_byte,
            has_changes: self.has_changes,
            has_error: self.has_error,
        }
    }

    /// Number of nodes in this subtree (the node itself included).
    pub open spec fn count(self) -> nat
        decreases self,
    {
        1 + count_forest(self.children@)
    }

    /// Depth-first preorder of this subtree: the node first, then each
    /// child's subtree, left to right.
    pub open spec fn preorder(self) -> Seq<NodeMeta>
        decreases self,
    {
        seq![self.meta()] + preorder_forest(self.children@)
    }
}

/// Total node count of a forest of sibling subtrees.
pub open spec fn count_forest(cs: Seq<SyntaxNode>) -> nat
    decreases cs,
{
    if cs.len() == 0 {
        0
    } else {
        cs[0].count() + count_forest(cs.drop_first())
    }
}

/// Concatenated preorders of a forest of sibling subtrees.
pub open spec fn preorder_forest(cs: Seq<SyntaxNode>) -> Seq<NodeMeta>
    decreases cs,
{
    if cs.len() == 0 {
        Seq::empty()
    } else {
        cs[0].preorder() + preorder_forest(cs.drop_first())
    }
}

/// A preorder sequence is exactly as long as the subtree's node count.
pub proof fn lemma_preorder_len(n: SyntaxNode)
    ensures
        n.preorder().len() == n.count(),
    decreases n,
{
    lemma_preorder_forest_len(n.children@);
}

/// A forest's concatenated preorder is exactly as long as its node count.
pub proof fn lemma_preorder_forest_len(cs: Seq<SyntaxNode>)
    ensures
        preorder_forest(cs).len() == count_forest(cs),
    decreases cs,
{
    if cs.len() > 0 {
        lemma_preorder_len(cs[0]);
        lemma_preorder_forest_len(cs.drop_first());
    }
}

/// A path from a node: the child index taken at each level, root first.
/// The empty path names the node itself.
pub open spec fn valid_path(n: SyntaxNode, p: Seq<usize>) -> bool
    decreases p.len(),
{
    p.len() == 0 || (p[0] < n.children@.len() && valid_path(
        n.children@[p[0] as int],
        p.drop_first(),
    ))
}

/// The node a path leads to.
pub open spec fn node_at(n: SyntaxNode, p: Seq<usize>) -> SyntaxNode
    decreases p.len(),
{
    if p.len() == 0 {
        n
    } else {
        node_at(n.children@[p[0] as int], p.drop_first())
    }
}

/// Total node count of the first `k` subtrees of a forest.
pub open spec fn count_prefix(cs: Seq<SyntaxNode>, k: int) -> nat
    decreases k,
{
    if k <= 0 {
        0
    } else {
        cs[0].count() + count_prefix(cs.drop_first(), k - 1)
    }
}

/// The position, in the preorder of `n`, of the node that `p` leads to.
pub open spec fn index_in_preorder(n: SyntaxNode, p: Seq<usize>) -> nat
    decreases p.len(),
{
    if p.len() == 0 {
        0
    } else {
        1 + count_prefix(n.children@, p[0] as int) + index_in_preorder(
            n.children@[p[0] as int],
            p.drop_first(),
        )
    }
}

/// One past the position of the last preorder entry of the subtree at `p`.
pub open spec fn end_in_preorder(n: SyntaxNode, p: Seq<usize>) -> nat {
    index_in_preorder(n, p) + node_at(n, p).count()
}

proof fn lemma_count_prefix_step(cs: Seq<SyntaxNode>, k: int)
    requires
        0 <= k < cs.len(),
    ensures
        count_prefix(cs, k + 1) == count_prefix(cs, k) + cs[k].count(),
    decreases k,
{
    if k > 0 {
        lemma_count_prefix_step(cs.drop_first(), k - 1);
        assert(cs.drop_first()[k - 1] == cs[k]);
    } else {
        assert(count_prefix(cs.drop_first(), 0) == 0);
    }
}

proof fn lemma_count_prefix_all(cs: Seq<SyntaxNode>)
    ensures
        count_prefix(cs, cs.len() as int) == count_forest(cs),
    decreases cs,
{
    if cs.len() > 0 {
        lemma_count_prefix_all(cs.drop_first());
    }
}

proof fn lemma_count_prefix_mono(cs: Seq<SyntaxNode>, k1: int, k2: int)
    requires
        0 <= k1 <= k2 <= cs.len(),
    ensures
        count_prefix(cs, k1) <= count_prefix(cs, k2),
    decreases k2 - k1,
{
    if k1 < k2 {
        lemma_count_prefix_step(cs, k2 - 1);
        lemma_count_prefix_mono(cs, k1, k2 - 1);
    }
}

proof fn lemma_forest_index(cs: Seq<SyntaxNode>, k: int, j: int)
    requires
        0 <= k < cs.len(),
        0 <= j < cs[k].preorder().len(),
    ensures
        count_prefix(cs, k) + j < preorder_forest(cs).len(),
        preorder_forest(cs)[count_prefix(cs, k) + j] == cs[k].preorder()[j],
    decreases k,
{
    lemma_preorder_forest_len(cs);
    lemma_preorder_len(cs[k]);
    lemma_count_prefix_step(cs, k);
    lemma_count_prefix_all(cs);
    lemma_count_prefix_mono(cs, k + 1, cs.len() as int);
    if k == 0 {
    } else {
        lemma_forest_index(cs.drop_first(), k - 1, j);
        lemma_preorder_len(cs[0]);
    }
}

/// The node a valid path leads to sits in the preorder at `index_in_preorder`,
/// which is within bounds.
pub proof fn lemma_node_position(n: SyntaxNode, p: Seq<usize>)
    requires
        valid_path(n, p),
    ensures
        index_in_preorder(n, p) < n.count(),
        n.preorder().len() == n.count(),
        n.preorder()[index_in_preorder(n, p) as int] == node_at(n, p).meta(),
    decreases p.len(),
{
    lemma_preorder_len(n);
    let cs = n.children@;
    if p.len() == 0 {
    } else {
        let k = p[0] as int;
        let child = cs[k];
        lemma_node_position(child, p.drop_first());
        lemma_preorder_len(child);
        let j = index_in_preorder(child, p.drop_first()) as int;
        lemma_forest_index(cs, k, j);
        lemma_count_prefix_step(cs, k);
        lemma_count_prefix_mono(cs, k + 1, cs.len() as int);
        lemma_count_prefix_all(cs);
        lemma_preorder_forest_len(cs);
    }
}

/// Paths compose: following `p` and then `q` is following `p + q`, and the
/// preorder positions add.
pub proof fn lemma_path_concat(n: SyntaxNode, p: Seq<usize>, q: Seq<usize>)
    requires
        valid_path(n, p),
        valid_path(node_at(n, p), q),
    ensures
        valid_path(n, p + q),
        node_at(n, p + q) == node_at(node_at(n, p), q),
        index_in_preorder(n, p + q) == index_in_preorder(n, p) + index_in_preorder(
            node_at(n, p),
            q,
        ),
    decreases p.len(),
{
    if p.len() == 0 {
        assert(p + q =~= q);
    } else {
        let child = n.children@[p[0] as int];
        assert((p + q).drop_first() =~= p.drop_first() + q);
        lemma_path_concat(child, p.drop_first(), q);
    }
}

/// A non-empty valid path splits into a valid prefix and a last child index.
pub proof fn lemma_path_unsnoc(n: SyntaxNode, p: Seq<usize>)
    requires
        valid_path(n, p),
        p.len() > 0,
    ensures
        valid_path(n, p.drop_last()),
        p.last() < node_at(n, p.drop_last()).children@.len(),
        node_at(n, p) == node_at(n, p.drop_last()).children@[p.last() as int],
    decreases p.len(),
{
    if p.len() == 1 {
        assert(p.drop_last() =~= Seq::<usize>::empty());
        assert(p.drop_first() =~= Seq::<usize>::empty());
        assert(valid_path(n, Seq::<usize>::empty()));
        assert(node_at(n, Seq::<usize>::empty()) == n);
        assert(node_at(n.children@[p[0] as int], Seq::<usize>::empty()) == n.children@[p[0] as int]);
        assert(p.last() == p[0]);
    } else {
        let child = n.children@[p[0] as int];
        lemma_path_unsnoc(child, p.drop_first());
        assert(p.drop_last().drop_first() =~= p.drop_first().drop_last());
        assert(p.drop_first().last() == p.last());
        assert(p.drop_last()[0] == p[0]);
        assert(p.drop_last().len() > 0);
        assert(valid_path(n, p.drop_last()));
        assert(node_at(n, p.drop_last()) == node_at(child, p.drop_first().drop_last()));
    }
}

/// Extending a valid path by one child index.
pub proof fn lemma_path_snoc(n: SyntaxNode, b: Seq<usize>, j: usize)
    requires
        valid_path(n, b),
        (j as int) < node_at(n, b).children@.len(),
    ensures
        valid_path(n, b.push(j)),
        node_at(n, b.push(j)) == node_at(n, b).children@[j as int],
        index_in_preorder(n, b.push(j)) == index_in_preorder(n, b) + 1 + count_prefix(
            node_at(n, b).children@,
            j as int,
        ),
{
    let m = node_at(n, b);
    let q = seq![j];
    assert(q.drop_first() =~= Seq::<usize>::empty());
    assert(valid_path(m.children@[j as int], Seq::<usize>::empty()));
    assert(index_in_preorder(m.children@[j as int], Seq::<usize>::empty()) == 0);
    assert(node_at(m.children@[j as int], Seq::<usize>::empty()) == m.children@[j as int]);
    lemma_path_concat(n, b, q);
    assert(b.push(j) =~= b + q);
}

/// Every prefix of a valid path is valid, and the next index of the path is
/// a child index of the node the prefix leads to.
pub proof fn lemma_valid_take(n: SyntaxNode, p: Seq<usize>, k: int)
    requires
        valid_path(n, p),
        0 <= k <= p.len(),
    ensures
        valid_path(n, p.take(k)),
        k < p.len() ==> p[k] < node_at(n, p.take(k)).children@.len(),
    decreases p.len(),
{
    if k == 0 {
        assert(p.take(0) =~= Seq::<usize>::empty());
        assert(valid_path(n, Seq::<usize>::empty()));
        assert(node_at(n, Seq::<usize>::empty()) == n);
    } else {
        let child = n.children@[p[0] as int];
        lemma_valid_take(child, p.drop_first(), k - 1);
        assert(p.take(k).drop_first() =~= p.drop_first().take(k - 1));
        assert(p.take(k)[0] == p[0]);
        if k < p.len() {
            assert(p.drop_first()[k - 1] == p[k]);
        }
    }
}

/// Descending to a first child advances the preorder position by one.
pub proof fn lemma_step_first_child(n: SyntaxNode, p: Seq<usize>)
    requires
        valid_path(n, p),
        node_at(n, p).children@.len() > 0,
    ensures
        valid_path(n, p.push(0)),
        node_at(n, p.push(0)) == node_at(n, p).children@[0],
        index_in_preorder(n, p.push(0)) == index_in_preorder(n, p) + 1,
{
    let m = node_at(n, p);
    let q = seq![0usize];
    assert(q.drop_first() =~= Seq::<usize>::empty());
    assert(valid_path(m.children@[0], Seq::<usize>::empty()));
    assert(index_in_preorder(m.children@[0], Seq::<usize>::empty()) == 0);
    assert(node_at(m.children@[0], Seq::<usize>::empty()) == m.children@[0]);
    assert(count_prefix(m.children@, 0) == 0);
    assert(index_in_preorder(m, q) == 1);
    lemma_path_concat(n, p, q);
    assert(p.push(0) =~= p + q);
}

/// Moving from a child to its next sibling advances the preorder position
/// over the whole finished subtree.
pub proof fn lemma_step_sibling(n: SyntaxNode, b: Seq<usize>, i: usize, j: usize)
    requires
        valid_path(n, b),
        i + 1 == j,
        (j as int) < node_at(n, b).children@.len(),
    ensures
        valid_path(n, b.push(i)),
        valid_path(n, b.push(j)),
        index_in_preorder(n, b.push(j)) == end_in_preorder(n, b.push(i)),
{
    let m = node_at(n, b);
    let cs = m.children@;
    let qi = seq![i];
    let qj = seq![j];
    assert(qi.drop_first() =~= Seq::<usize>::empty());
    assert(qj.drop_first() =~= Seq::<usize>::empty());
    assert(valid_path(cs[i as int], Seq::<usize>::empty()));
    assert(valid_path(cs[j as int], Seq::<usize>::empty()));
    assert(index_in_preorder(cs[i as int], Seq::<usize>::empty()) == 0);
    assert(index_in_preorder(cs[j as int], Seq::<usize>::empty()) == 0);
    assert(node_at(cs[i as int], Seq::<usize>::empty()) == cs[i as int]);
    lemma_path_concat(n, b, qi);
    lemma_path_concat(n, b, qj);
    assert(b.push(i) =~= b + qi);
    assert(b.push(j) =~= b + qj);
    lemma_count_prefix_step(cs, i as int);
}

/// Leaving the last child of a node lands one past the node's own subtree.
pub proof fn lemma_step_up(n: SyntaxNode, b: Seq<usize>, i: usize)
    requires
        valid_path(n, b),
        (i as int) + 1 == node_at(n, b).children@.len(),
    ensures
        valid_path(n, b.push(i)),
        end_in_preorder(n, b.push(i)) == end_in_preorder(n, b),
{
    let m = node_at(n, b);
    let cs = m.children@;
    let qi = seq![i];
    assert(qi.drop_first() =~= Seq::<usize>::empty());
    assert(valid_path(cs[i as int], Seq::<usize>::empty()));
    assert(index_in_preorder(cs[i as int], Seq::<usize>::empty()) == 0);
    assert(node_at(cs[i as int], Seq::<usize>::empty()) == cs[i as int]);
    lemma_path_concat(n, b, qi);
    assert(b.push(i) =~= b + qi);
    lemma_count_prefix_step(cs, i as int);
    lemma_count_prefix_all(cs);
    assert(m.count() == 1 + count_forest(cs));
}

/// Law (traversal order): a node comes strictly before every node of its
/// subtree in preorder; in particular a parent precedes each of its children.
pub proof fn lemma_parent_before_descendant(n: SyntaxNode, p: Seq<usize>, q: Seq<usize>)
    requires
        valid_path(n, p),
        valid_path(node_at(n, p), q),
        q.len() > 0,
    ensures
        valid_path(n, p + q),
        index_in_preorder(n, p) < index_in_preorder(n, p + q),
{
    lemma_path_concat(n, p, q);
}

/// Law (traversal uniqueness): distinct paths occupy distinct preorder
/// positions, so the walk emits every node of the tree exactly once.
pub proof fn lemma_index_distinct(n: SyntaxNode, p: Seq<usize>, q: Seq<usize>)
    requires
        valid_path(n, p),
        valid_path(n, q),
        p != q,
    ensures
        index_in_preorder(n, p) != index_in_preorder(n, q),
    decreases p.len(),
{
    if p.len() == 0 {
        if q.len() == 0 {
            assert(p =~= q);
        }
        assert(q.len() > 0);
    } else if q.len() == 0 {
    } else if p[0] == q[0] {
        let child = n.children@[p[0] as int];
        if p.drop_first() == q.drop_first() {
            assert(p.drop_first().len() == p.len() - 1);
            assert(q.drop_first().len() == q.len() - 1);
            assert(p.len() == q.len());
            assert(p =~= q) by {
                assert forall|k: int| 0 <= k < p.len() implies p[k] == q[k] by {
                    if k > 0 {
                        assert(p.drop_first()[k - 1] == q.drop_first()[k - 1]);
                    }
                }
            }
        } else {
            lemma_index_distinct(child, p.drop_first(), q.drop_first());
        }
    } else if p[0] < q[0] {
        lemma_index_before_sibling(n, p, q);
    } else {
        lemma_index_before_sibling(n, q, p);
    }
}

/// A node under an earlier sibling precedes every node under a later one.
proof fn lemma_index_before_sibling(n: SyntaxNode, p: Seq<usize>, q: Seq<usize>)
    requires
        valid_path(n, p),
        valid_path(n, q),
        p.len() > 0,
        q.len() > 0,
        p[0] < q[0],
    ensures
        index_in_preorder(n, p) < index_in_preorder(n, q),
{
    let cs = n.children@;
    let cp = cs[p[0] as int];
    lemma_node_position(cp, p.drop_first());
    lemma_count_prefix_step(cs, p[0] as int);
    lemma_count_prefix_mono(cs, p[0] as int + 1, q[0] as int);
}

} // verus!
