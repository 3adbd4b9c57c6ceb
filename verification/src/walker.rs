//! The tree walker: a restartable, lazy depth-first preorder traversal over
//! one immutable tree snapshot.
//!
//! The cursor keeps the path from the root to the current node plus a done
//! flag. At each step it emits the current node, then descends into a first
//! child if one exists; otherwise it climbs towards the next sibling of the
//! nearest ancestor that has one, emitting nothing on the way up. Each node
//! is emitted exactly once, the first time it is reached.

use vstd::prelude::*;

use crate::tree::NodeMeta;
use crate::tree::SyntaxNode;
use crate::tree::count_forest;
use crate::tree::count_prefix;
use crate::tree::end_in_preorder;
use crate::tree::index_in_preorder;
use crate::tree::lemma_node_position;
use crate::tree::lemma_path_snoc;
use crate::tree::lemma_path_unsnoc;
use crate::tree::lemma_preorder_len;
use crate::tree::lemma_step_first_child;
use crate::tree::lemma_step_sibling;
use crate::tree::lemma_step_up;
use crate::tree::lemma_valid_take;
use crate::tree::node_at;
use crate::tree::valid_path;

verus! {

/// Walks from `tree` down `path`, stopping after `len` steps.
fn node_at_ref<'a>(tree: &'a SyntaxNode, path: &Vec<usize>, len: usize) -> (r: &'a SyntaxNode)
    requires
        len <= path@.len(),
        valid_path(*tree, path@.take(len as int)),
    ensures
        *r == node_at(*tree, path@.take(len as int)),
{
    let mut cur: &SyntaxNode = tree;
    let mut i: usize = 0;
    proof {
        assert(path@.take(0) =~= Seq::<usize>::empty());
        assert(node_at(*tree, Seq::<usize>::empty()) == *tree);
        assert(valid_path(*tree, Seq::<usize>::empty()));
    }
    while i < len
        invariant
            i <= len <= path@.len(),
            valid_path(*tree, path@.take(len as int)),
            valid_path(*tree, path@.take(i as int)),
            *cur == node_at(*tree, path@.take(i as int)),
        decreases len - i,
    {
        proof {
            lemma_valid_take(*tree, path@.take(len as int), i as int);
            assert(path@.take(len as int).take(i as int) =~= path@.take(i as int));
            assert(path@.take(len as int)[i as int] == path@[i as int]);
            lemma_path_snoc(*tree, path@.take(i as int), path@[i as int]);
            assert(path@.take(i as int).push(path@[i as int]) =~= path@.take(i + 1));
        }
        cur = &cur.children[path[i]];
        i = i + 1;
    }
    cur
}

/// A restartable depth-first preorder traversal. Two walkers made from the
/// same tree yield two independent, identical sequences: each owns its whole
/// cursor state, and `next` emits exactly the node at the walker's current
/// preorder position.
pub struct TreeIter {
    path: Vec<usize>,
    done: bool,
    snapshot: Ghost<SyntaxNode>,
    pos: Ghost<nat>,
}

impl TreeIter {
    /// The tree snapshot this walker was made for.
    pub closed spec fn tree(self) -> SyntaxNode {
        self.snapshot@
    }

    /// How many nodes have been emitted so far.
    pub closed spec fn emitted(self) -> nat {
        self.pos@
    }

    /// The walker is positioned on the node `emitted()` of the preorder of
    /// `t`, or past the end with every node emitted.
    pub closed spec fn wf(self, t: SyntaxNode) -> bool {
        &&& self.snapshot@ == t
        &&& if self.done {
            self.pos@ == t.count()
        } else {
            &&& valid_path(t, self.path@)
            &&& self.pos@ == index_in_preorder(t, self.path@)
            &&& self.pos@ <= t.count()
        }
    }

    /// A fresh walker, positioned on the root.
    pub fn new(tree: &SyntaxNode) -> (it: TreeIter)
        ensures
            it.wf(*tree),
            it.tree() == *tree,
            it.emitted() == 0,
    {
        proof {
            assert(valid_path(*tree, Seq::<usize>::empty()));
            assert(index_in_preorder(*tree, Seq::<usize>::empty()) == 0);
        }
        TreeIter { path: Vec::new(), done: false, snapshot: Ghost(*tree), pos: Ghost(0) }
    }

    /// Emits the next node in preorder, or nothing once every node of the
    /// snapshot has been emitted.
    pub fn next(&mut self, tree: &SyntaxNode) -> (r: Option<NodeMeta>)
        requires
            old(self).wf(*tree),
        ensures
            final(self).wf(*tree),
            final(self).tree() == old(self).tree(),
            old(self).emitted() == tree.count() ==> r is None && final(self).emitted() == old(
                self,
            ).emitted(),
            old(self).emitted() < tree.count() ==> r == Some(
                tree.preorder()[old(self).emitted() as int],
            ) && final(self).emitted() == old(self).emitted() + 1,
    {
        proof {
            lemma_preorder_len(*tree);
            if !self.done {
                lemma_node_position(*tree, self.path@);
            }
        }
        if self.done {
            return None;
        }
        let plen = self.path.len();
        proof {
            assert(self.path@.take(plen as int) =~= self.path@);
        }
        let n = node_at_ref(tree, &self.path, plen);
        let meta = NodeMeta {
            kind: n.kind.clone(),
            kind_id: n.kind_id,
            start_byte: n.start_byte,
            end_byte: n.end_byte,
            has_changes: n.has_changes,
            has_error: n.has_error,
        };
        let ghost old_pos = self.pos@;
        proof {
            assert(meta == node_at(*tree, self.path@).meta());
        }
        if n.children.len() > 0 {
            proof {
                lemma_step_first_child(*tree, self.path@);
                lemma_node_position(*tree, self.path@.push(0));
                assert(self.path@.push(0) =~= self.path@ + seq![0usize]);
            }
            self.path.push(0);
            self.pos = Ghost(old_pos + 1);
        } else {
            proof {
                let m = node_at(*tree, self.path@);
                assert(m.children@ =~= Seq::<SyntaxNode>::empty());
                assert(count_forest(Seq::<SyntaxNode>::empty()) == 0);
                assert(m.count() == 1);
            }
            let mut moved = false;
            while !moved && self.path.len() > 0
                invariant
                    self.snapshot@ == *tree,
                    self.done == false,
                    self.pos@ == old_pos,
                    old_pos + 1 <= tree.count(),
                    !moved ==> valid_path(*tree, self.path@) && end_in_preorder(*tree, self.path@)
                        == old_pos + 1,
                    moved ==> valid_path(*tree, self.path@) && index_in_preorder(*tree, self.path@)
                        == old_pos + 1,
                decreases self.path@.len(), (if moved {
                    0int
                } else {
                    1int
                }),
            {
                let plen2 = self.path.len();
                proof {
                    lemma_path_unsnoc(*tree, self.path@);
                    assert(self.path@.take((plen2 - 1) as int) =~= self.path@.drop_last());
                }
                let parent = node_at_ref(tree, &self.path, plen2 - 1);
                let last = self.path[plen2 - 1];
                if last < parent.children.len() - 1 {
                    proof {
                        lemma_step_sibling(*tree, self.path@.drop_last(), last, (last + 1) as usize);
                        assert(self.path@.update(plen2 - 1, (last + 1) as usize)
                            =~= self.path@.drop_last().push((last + 1) as usize));
                        assert(self.path@.drop_last().push(last) =~= self.path@);
                    }
                    self.path[plen2 - 1] = last + 1;
                    moved = true;
                } else {
                    proof {
                        lemma_step_up(*tree, self.path@.drop_last(), last);
                        assert(self.path@.drop_last().push(last) =~= self.path@);
                    }
                    let _ = self.path.pop();
                }
            }
            if !moved {
                proof {
                    assert(self.path@ =~= Seq::<usize>::empty());
                    assert(index_in_preorder(*tree, Seq::<usize>::empty()) == 0);
                    assert(node_at(*tree, Seq::<usize>::empty()) == *tree);
                }
                self.done = true;
            }
            self.pos = Ghost(old_pos + 1);
        }
        Some(meta)
    }
}

/// The unfiltered traversal, run to the end: every node of the tree, in
/// depth-first preorder, each exactly once.
pub fn walk_preorder(tree: &SyntaxNode) -> (r: Vec<NodeMeta>)
    ensures
        r@ == tree.preorder(),
        r@.len() == tree.count(),
{
    proof {
        lemma_preorder_len(*tree);
    }
    let mut it = TreeIter::new(tree);
    let mut out: Vec<NodeMeta> = Vec::new();
    let mut fin = false;
    proof {
        assert(tree.preorder().take(0) =~= Seq::<NodeMeta>::empty());
    }
    while !fin
        invariant
            it.wf(*tree),
            out@.len() == it.emitted(),
            out@ == tree.preorder().take(it.emitted() as int),
            fin ==> it.emitted() == tree.count(),
            tree.preorder().len() == tree.count(),
        decreases tree.count() - it.emitted() + (if fin {
            0int
        } else {
            1int
        }),
    {
        let ghost before = it.emitted();
        match it.next(tree) {
            Some(m) => {
                out.push(m);
                proof {
                    assert(tree.preorder().take(before as int).push(
                        tree.preorder()[before as int],
                    ) =~= tree.preorder().take(before as int + 1));
                }
            },
            None => {
                fin = true;
            },
        }
    }
    proof {
        assert(tree.preorder().take(tree.count() as int) =~= tree.preorder());
    }
    out
}

/// The kind tags of the changed nodes of an emission sequence, in order.
/// Nodes are not deduplicated: a changed ancestor and a changed descendant
/// both contribute.
pub open spec fn changed_kinds_spec(s: Seq<NodeMeta>) -> Seq<String>
    decreases s,
{
    if s.len() == 0 {
        Seq::empty()
    } else {
        (if s[0].has_changes {
            seq![s[0].kind]
        } else {
            Seq::empty()
        }) + changed_kinds_spec(s.drop_first())
    }
}

proof fn lemma_changed_kinds_push(s: Seq<NodeMeta>, x: NodeMeta)
    ensures
        changed_kinds_spec(s.push(x)) == changed_kinds_spec(s) + (if x.has_changes {
            seq![x.kind]
        } else {
            Seq::<String>::empty()
        }),
    decreases s,
{
    let tail = if x.has_changes {
        seq![x.kind]
    } else {
        Seq::<String>::empty()
    };
    if s.len() == 0 {
        assert(s.push(x).drop_first() =~= Seq::<NodeMeta>::empty());
        assert(s.push(x)[0] == x);
        assert(s.push(x).len() == 1);
        assert(changed_kinds_spec(Seq::<NodeMeta>::empty()) == Seq::<String>::empty());
        assert(changed_kinds_spec(s) == Seq::<String>::empty());
        assert(changed_kinds_spec(s.push(x)) =~= tail);
        assert(changed_kinds_spec(s) + tail =~= tail);
    } else {
        assert(s.push(x).drop_first() =~= s.drop_first().push(x));
        assert(s.push(x)[0] == s[0]);
        lemma_changed_kinds_push(s.drop_first(), x);
        assert(changed_kinds_spec(s.push(x)) =~= changed_kinds_spec(s) + tail);
    }
}

/// The filtered traversal: the kind tags of every node whose subtree was
/// touched by the last edit cycle, in depth-first preorder. This list is the
/// highlight-invalidation payload handed back to the host.
pub fn changed_kinds(tree: &SyntaxNode) -> (r: Vec<String>)
    ensures
        r@ == changed_kinds_spec(tree.preorder()),
{
    proof {
        lemma_preorder_len(*tree);
    }
    let mut it = TreeIter::new(tree);
    let mut out: Vec<String> = Vec::new();
    let mut fin = false;
    proof {
        assert(tree.preorder().take(0) =~= Seq::<NodeMeta>::empty());
        assert(changed_kinds_spec(Seq::<NodeMeta>::empty()) =~= Seq::<String>::empty());
    }
    while !fin
        invariant
            it.wf(*tree),
            out@ == changed_kinds_spec(tree.preorder().take(it.emitted() as int)),
            fin ==> it.emitted() == tree.count(),
            tree.preorder().len() == tree.count(),
        decreases tree.count() - it.emitted() + (if fin {
            0int
        } else {
            1int
        }),
    {
        let ghost before = it.emitted();
        match it.next(tree) {
            Some(m) => {
                proof {
                    lemma_changed_kinds_push(
                        tree.preorder().take(before as int),
                        tree.preorder()[before as int],
                    );
                    assert(tree.preorder().take(before as int).push(
                        tree.preorder()[before as int],
                    ) =~= tree.preorder().take(before as int + 1));
                }
                if m.has_changes {
                    out.push(m.kind);
                    proof {
                        assert(changed_kinds_spec(tree.preorder().take(before as int)).push(
                            tree.preorder()[before as int].kind,
                        ) =~= changed_kinds_spec(tree.preorder().take(before as int + 1)));
                    }
                } else {
                    proof {
                        assert(changed_kinds_spec(tree.preorder().take(before as int))
                            =~= changed_kinds_spec(tree.preorder().take(before as int + 1)));
                    }
                }
            },
            None => {
                fin = true;
            },
        }
    }
    proof {
        assert(tree.preorder().take(tree.count() as int) =~= tree.preorder());
    }
    out
}

} // verus!
