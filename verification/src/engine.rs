//! The incremental parse engine.
//!
//! The engine owns the per-document parser state: the bound language, the
//! current tree, and the bookkeeping that records which byte regions the
//! edits since the last reparse touched. The grammar itself is an opaque
//! external collaborator: it turns the full document text into a fresh tree
//! structure, and the engine derives from that structure and its own edit
//! bookkeeping the tree it holds — reused regions keep `has_changes` false,
//! regions touched by an edit and all their ancestors are marked changed.

use vstd::prelude::*;

use crate::edit::TreeEdit;
use crate::edit::edit_wf;
use crate::registry::LanguageHandle;
use crate::registry::SUPPORTED_ABI;
use crate::tree::SyntaxNode;
use crate::tree::node_at;
use crate::tree::valid_path;
use crate::tree::lemma_path_unsnoc;

verus! {

/// A byte range of the current document text that an edit touched, in
/// post-edit coordinates. A zero-width region (a pure deletion) still
/// touches the nodes at its boundary.
#[derive(Debug, Clone, Copy, PartialEq, Eq)]
pub struct ByteRegion {
    pub start: usize,
    pub end: usize,
}

/// The failures the core reports as errors. The other two conditions of its
/// taxonomy are data, not errors: an unrecognized language identifier is the
/// registry resolving to nothing (highlighting is skipped, never a fault),
/// and a region the grammar could not fully match is the `has_error` flag on
/// the affected nodes, which flows through the walker like any attribute.
#[derive(Debug, Clone, Copy, PartialEq, Eq)]
pub enum CoreError {
    /// A resolved handle could not be bound to the parser; the session falls
    /// back to an un-parsed state.
    LanguageBinding,
    /// A text delta inconsistent with the known document bounds; the edit is
    /// rejected and the next reparse runs without reuse.
    MalformedEdit,
}

/// Every node span lies within a document of `len` bytes.
pub open spec fn node_bounded(n: SyntaxNode, len: int) -> bool
    decreases n,
{
    &&& n.start_byte <= n.end_byte
    &&& n.end_byte <= len
    &&& forall|i: int|
        0 <= i < n.children@.len() ==> node_bounded(#[trigger] n.children@[i], len)
}

/// A region touches a node's span when the closed intervals meet.
pub open spec fn region_touches(r: ByteRegion, start: int, end: int) -> bool {
    r.start <= end && start <= r.end
}

/// Some region of the set touches the span.
pub open spec fn any_touches(rs: Seq<ByteRegion>, start: int, end: int) -> bool {
    exists|i: int| 0 <= i < rs.len() && region_touches(#[trigger] rs[i], start, end)
}

/// Some tree of the forest carries the changed flag.
pub open spec fn forest_changed(cs: Seq<SyntaxNode>) -> bool {
    exists|i: int| 0 <= i < cs.len() && (#[trigger] cs[i]).has_changes
}

/// `m` is `o` with the changed flags derived from the touched regions:
/// a node is changed exactly when its span meets a region or one of its
/// children is changed; kinds, ranges and error flags are untouched.
pub open spec fn is_marked(o: SyntaxNode, rs: Seq<ByteRegion>, m: SyntaxNode) -> bool
    decreases o,
{
    &&& m.kind == o.kind
    &&& m.kind_id == o.kind_id
    &&& m.start_byte == o.start_byte
    &&& m.end_byte == o.end_byte
    &&& m.has_error == o.has_error
    &&& m.children@.len() == o.children@.len()
    &&& (forall|i: int|
        0 <= i < o.children@.len() ==> is_marked(
            #[trigger] o.children@[i],
            rs,
            m.children@[i],
        ))
    &&& m.has_changes == (any_touches(rs, o.start_byte as int, o.end_byte as int)
        || forest_changed(m.children@))
}

/// Two trees agree on every node's kind, range and error flag, differing at
/// most in changed flags.
pub open spec fn same_shape(a: SyntaxNode, b: SyntaxNode) -> bool
    decreases a,
{
    &&& a.kind == b.kind
    &&& a.kind_id == b.kind_id
    &&& a.start_byte == b.start_byte
    &&& a.end_byte == b.end_byte
    &&& a.has_error == b.has_error
    &&& a.children@.len() == b.children@.len()
    &&& forall|i: int|
        0 <= i < a.children@.len() ==> same_shape(#[trigger] a.children@[i], b.children@[i])
}

/// No node of the tree carries the changed flag.
pub open spec fn all_clear(n: SyntaxNode) -> bool
    decreases n,
{
    &&& !n.has_changes
    &&& forall|i: int| 0 <= i < n.children@.len() ==> all_clear(#[trigger] n.children@[i])
}

/// At every node of the tree, a changed child forces the changed flag.
pub open spec fn changed_monotone(n: SyntaxNode) -> bool
    decreases n,
{
    &&& (forall|i: int|
        0 <= i < n.children@.len() && (#[trigger] n.children@[i]).has_changes ==> n.has_changes)
    &&& forall|i: int| 0 <= i < n.children@.len() ==> changed_monotone(#[trigger] n.children@[i])
}

/// Marking never alters structure: the marked tree has the shape of its
/// source.
pub proof fn lemma_marked_shape(o: SyntaxNode, rs: Seq<ByteRegion>, m: SyntaxNode)
    requires
        is_marked(o, rs, m),
    ensures
        same_shape(m, o),
    decreases o,
{
    assert forall|i: int| 0 <= i < m.children@.len() implies same_shape(
        #[trigger] m.children@[i],
        o.children@[i],
    ) by {
        lemma_marked_shape(o.children@[i], rs, m.children@[i]);
    }
}

/// Law (idempotent reparse): marking against no touched regions clears every
/// changed flag — a second reparse of identical text yields a tree with the
/// same kinds and ranges and `has_changes` false throughout.
pub proof fn lemma_marked_clear(o: SyntaxNode, m: SyntaxNode)
    requires
        is_marked(o, Seq::<ByteRegion>::empty(), m),
    ensures
        all_clear(m),
        same_shape(m, o),
    decreases o,
{
    lemma_marked_shape(o, Seq::<ByteRegion>::empty(), m);
    assert forall|i: int| 0 <= i < m.children@.len() implies all_clear(
        #[trigger] m.children@[i],
    ) by {
        lemma_marked_clear(o.children@[i], m.children@[i]);
    }
    assert(!any_touches(Seq::<ByteRegion>::empty(), o.start_byte as int, o.end_byte as int));
    if m.has_changes {
        assert(forest_changed(m.children@));
        let i = choose|i: int| 0 <= i < m.children@.len() && (#[trigger] m.children@[i]).has_changes;
        assert(all_clear(m.children@[i]));
    }
}

/// Law (incremental reuse never changes the result): two markings of the
/// same fresh parse — whatever regions each considers touched — agree on
/// every node's kind and range. Reuse affects only the changed flags.
pub proof fn lemma_incremental_equivalence(
    fresh: SyntaxNode,
    rs1: Seq<ByteRegion>,
    rs2: Seq<ByteRegion>,
    m1: SyntaxNode,
    m2: SyntaxNode,
)
    requires
        is_marked(fresh, rs1, m1),
        is_marked(fresh, rs2, m2),
    ensures
        same_shape(m1, m2),
    decreases fresh,
{
    assert forall|i: int| 0 <= i < m1.children@.len() implies same_shape(
        #[trigger] m1.children@[i],
        m2.children@[i],
    ) by {
        lemma_incremental_equivalence(
            fresh.children@[i],
            rs1,
            rs2,
            m1.children@[i],
            m2.children@[i],
        );
    }
}

/// Marking produces a tree where a changed child forces a changed parent.
pub proof fn lemma_marked_monotone(o: SyntaxNode, rs: Seq<ByteRegion>, m: SyntaxNode)
    requires
        is_marked(o, rs, m),
    ensures
        changed_monotone(m),
    decreases o,
{
    assert forall|i: int| 0 <= i < m.children@.len() implies changed_monotone(
        #[trigger] m.children@[i],
    ) by {
        lemma_marked_monotone(o.children@[i], rs, m.children@[i]);
    }
    assert forall|i: int|
        0 <= i < m.children@.len() && (#[trigger] m.children@[i]).has_changes implies m.has_changes by {
        assert(forest_changed(m.children@));
    }
}

/// Monotonicity holds at every node reachable by a valid path.
pub proof fn lemma_monotone_at(n: SyntaxNode, p: Seq<usize>)
    requires
        changed_monotone(n),
        valid_path(n, p),
    ensures
        changed_monotone(node_at(n, p)),
    decreases p.len(),
{
    if p.len() > 0 {
        lemma_monotone_at(n.children@[p[0] as int], p.drop_first());
    }
}

/// Law (changed-set monotonicity): on any tree a reparse produces, every
/// node on the path from a changed node to the root is itself marked
/// changed — the filtered walker payload is closed under "ancestor of a
/// changed node".
pub proof fn lemma_changed_closed_under_ancestor(
    o: SyntaxNode,
    rs: Seq<ByteRegion>,
    m: SyntaxNode,
    p: Seq<usize>,
)
    requires
        is_marked(o, rs, m),
        valid_path(m, p),
        p.len() > 0,
        node_at(m, p).has_changes,
    ensures
        node_at(m, p.drop_last()).has_changes,
{
    lemma_marked_monotone(o, rs, m);
    lemma_path_unsnoc(m, p);
    lemma_monotone_at(m, p.drop_last());
}

/// Whether any region of the set touches the span `[start, end]`.
fn touches_any(regions: &Vec<ByteRegion>, start: usize, end: usize) -> (r: bool)
    ensures
        r == any_touches(regions@, start as int, end as int),
{
    let mut i: usize = 0;
    let mut found = false;
    while i < regions.len()
        invariant
            i <= regions@.len(),
            found == exists|j: int|
                0 <= j < i && region_touches(#[trigger] regions@[j], start as int, end as int),
        decreases regions@.len() - i,
    {
        let reg = regions[i];
        if reg.start <= end && start <= reg.end {
            found = true;
        }
        i = i + 1;
    }
    found
}

/// Rebuilds `n` with changed flags derived from the touched regions.
pub fn mark(n: &SyntaxNode, regions: &Vec<ByteRegion>) -> (r: SyntaxNode)
    ensures
        is_marked(*n, regions@, r),
    decreases *n,
{
    let mut kids: Vec<SyntaxNode> = Vec::new();
    let mut any_child = false;
    let mut i: usize = 0;
    while i < n.children.len()
        invariant
            i <= n.children@.len(),
            kids@.len() == i,
            forall|j: int| 0 <= j < i ==> is_marked(n.children@[j], regions@, #[trigger] kids@[j]),
            any_child == forest_changed(kids@),
        decreases n.children@.len() - i,
    {
        let child = mark(&n.children[i], regions);
        let ghost kids_before = kids@;
        let ghost old_any = any_child;
        let ghost child_snap = child;
        if child.has_changes {
            any_child = true;
        }
        kids.push(child);
        proof {
            assert(kids@ == kids_before.push(child_snap));
            if any_child {
                if child_snap.has_changes {
                    assert(kids@[kids@.len() - 1].has_changes);
                } else {
                    assert(old_any);
                    let j = choose|j: int|
                        0 <= j < kids_before.len() && (#[trigger] kids_before[j]).has_changes;
                    assert(kids@[j].has_changes);
                }
                assert(forest_changed(kids@));
            } else {
                assert(!child_snap.has_changes);
                assert(!forest_changed(kids_before));
                assert forall|j: int| 0 <= j < kids@.len() implies !(
                #[trigger] kids@[j]).has_changes by {
                    if j < kids_before.len() {
                        if kids_before[j].has_changes {
                            assert(forest_changed(kids_before));
                        }
                        assert(kids@[j] == kids_before[j]);
                    } else {
                        assert(kids@[j] == child_snap);
                    }
                }
                assert(!forest_changed(kids@));
            }
        }
        i = i + 1;
    }
    let touched = touches_any(regions, n.start_byte, n.end_byte);
    SyntaxNode {
        kind: n.kind.clone(),
        kind_id: n.kind_id,
        start_byte: n.start_byte,
        end_byte: n.end_byte,
        has_changes: touched || any_child,
        has_error: n.has_error,
        children: kids,
    }
}

/// Where a pre-edit byte position lands after the edit: positions at or
/// before the replaced range stay, positions inside it collapse to the new
/// end, positions at or past its old end move by the length change.
pub open spec fn shift_byte(b: int, e: TreeEdit) -> int {
    if b <= e.start_byte {
        b
    } else if b < e.old_end_byte {
        e.new_end_byte as int
    } else {
        b - e.old_end_byte + e.new_end_byte
    }
}

/// Shifting preserves order.
pub proof fn lemma_shift_byte_monotone(b1: int, b2: int, e: TreeEdit)
    requires
        edit_wf(e),
        0 <= b1 <= b2,
    ensures
        shift_byte(b1, e) <= shift_byte(b2, e),
{
}

/// A shifted position stays within the post-edit document.
pub proof fn lemma_shift_byte_bounds(b: int, e: TreeEdit, len: int)
    requires
        edit_wf(e),
        0 <= b <= len,
        e.old_end_byte <= len,
    ensures
        0 <= shift_byte(b, e) <= len - e.old_end_byte + e.new_end_byte,
{
}

/// A region, carried into the post-edit coordinate space.
pub open spec fn region_shift(r: ByteRegion, e: TreeEdit) -> ByteRegion {
    (ByteRegion {
        start: shift_byte(r.start as int, e) as usize,
        end: shift_byte(r.end as int, e) as usize,
    })
}

/// `m` is `o` with every node's span carried into the post-edit coordinate
/// space; kinds and flags are untouched.
pub open spec fn is_shifted(o: SyntaxNode, e: TreeEdit, m: SyntaxNode) -> bool
    decreases o,
{
    &&& m.kind == o.kind
    &&& m.kind_id == o.kind_id
    &&& m.has_error == o.has_error
    &&& m.has_changes == o.has_changes
    &&& m.start_byte == shift_byte(o.start_byte as int, e)
    &&& m.end_byte == shift_byte(o.end_byte as int, e)
    &&& m.children@.len() == o.children@.len()
    &&& forall|i: int|
        0 <= i < o.children@.len() ==> is_shifted(#[trigger] o.children@[i], e, m.children@[i])
}

fn shift_byte_exec(b: usize, e: &TreeEdit, len: usize) -> (r: usize)
    requires
        edit_wf(*e),
        b <= len,
        e.old_end_byte <= len,
        len - e.old_end_byte + e.new_end_byte <= usize::MAX,
    ensures
        r as int == shift_byte(b as int, *e),
{
    if b <= e.start_byte {
        b
    } else if b < e.old_end_byte {
        e.new_end_byte
    } else {
        b - e.old_end_byte + e.new_end_byte
    }
}

/// Rebuilds `n` with every span carried into the post-edit coordinate
/// space of `e`; `len` is the pre-edit document length.
pub fn shift_node(n: &SyntaxNode, e: &TreeEdit, len: usize) -> (r: SyntaxNode)
    requires
        node_bounded(*n, len as int),
        edit_wf(*e),
        e.old_end_byte <= len,
        len - e.old_end_byte + e.new_end_byte <= usize::MAX,
    ensures
        is_shifted(*n, *e, r),
        node_bounded(r, len - e.old_end_byte + e.new_end_byte),
    decreases *n,
{
    let mut kids: Vec<SyntaxNode> = Vec::new();
    let mut i: usize = 0;
    while i < n.children.len()
        invariant
            node_bounded(*n, len as int),
            edit_wf(*e),
            e.old_end_byte <= len,
            len - e.old_end_byte + e.new_end_byte <= usize::MAX,
            i <= n.children@.len(),
            kids@.len() == i,
            forall|j: int| 0 <= j < i ==> is_shifted(n.children@[j], *e, #[trigger] kids@[j]),
            forall|j: int|
                0 <= j < i ==> node_bounded(
                    #[trigger] kids@[j],
                    len - e.old_end_byte + e.new_end_byte,
                ),
        decreases n.children@.len() - i,
    {
        let child = shift_node(&n.children[i], e, len);
        kids.push(child);
        i = i + 1;
    }
    proof {
        lemma_shift_byte_monotone(n.start_byte as int, n.end_byte as int, *e);
        lemma_shift_byte_bounds(n.end_byte as int, *e, len as int);
        lemma_shift_byte_bounds(n.start_byte as int, *e, len as int);
    }
    let start = shift_byte_exec(n.start_byte, e, len);
    let end = shift_byte_exec(n.end_byte, e, len);
    SyntaxNode {
        kind: n.kind.clone(),
        kind_id: n.kind_id,
        start_byte: start,
        end_byte: end,
        has_changes: n.has_changes,
        has_error: n.has_error,
        children: kids,
    }
}

/// A region lies within a document of `len` bytes.
pub open spec fn region_bounded(r: ByteRegion, len: int) -> bool {
    r.start <= r.end && r.end <= len
}

/// The per-document parser state: the bound language, the current tree, the
/// known document length, and the byte regions (in current coordinates) that
/// the edits since the last reparse touched. The tree is an immutable
/// snapshot: every operation that changes it produces a new value.
pub struct ParseEngine {
    pub language: Option<LanguageHandle>,
    pub tree: Option<SyntaxNode>,
    pub doc_len: usize,
    pub pending: Vec<ByteRegion>,
    pub reuse_ok: bool,
}

impl ParseEngine {
    /// The held tree and the recorded regions fit the known document length.
    pub open spec fn wf(self) -> bool {
        &&& (self.tree is Some ==> node_bounded(self.tree->Some_0, self.doc_len as int))
        &&& forall|i: int|
            0 <= i < self.pending@.len() ==> region_bounded(
                #[trigger] self.pending@[i],
                self.doc_len as int,
            )
    }

    /// The regions the next reparse will treat as touched: the recorded
    /// edits where reuse is allowed and a previous tree exists, nothing
    /// otherwise (a full parse).
    pub open spec fn regions_for_reparse(self) -> Seq<ByteRegion> {
        if self.reuse_ok && self.tree is Some {
            self.pending@
        } else {
            Seq::empty()
        }
    }

    /// A fresh engine: no language, no tree, nothing pending.
    pub fn new() -> (r: ParseEngine)
        ensures
            r.wf(),
            r.language is None,
            r.tree is None,
            r.doc_len == 0,
            r.pending@.len() == 0,
            !r.reuse_ok,
    {
        ParseEngine {
            language: None,
            tree: None,
            doc_len: 0,
            pending: Vec::new(),
            reuse_ok: false,
        }
    }

    /// Rebinds the parser to a new grammar. A structurally invalid handle
    /// (its ABI stamp differs from the parser's) is refused and nothing
    /// changes. On success any held tree stays in memory but is no longer
    /// reusable: the next parse call runs a full parse.
    pub fn set_language(&mut self, h: LanguageHandle) -> (r: Result<(), CoreError>)
        requires
            old(self).wf(),
        ensures
            final(self).wf(),
            r is Ok <==> h.valid(),
            r is Err ==> r == Err::<(), CoreError>(CoreError::LanguageBinding) && *final(self)
                == *old(self),
            r is Ok ==> final(self).language == Some(h) && !final(self).reuse_ok && final(self).tree
                == old(self).tree && final(self).doc_len == old(self).doc_len
                && final(self).pending@ == old(self).pending@,
    {
        if h.abi == SUPPORTED_ABI {
            self.language = Some(h);
            self.reuse_ok = false;
            Ok(())
        } else {
            Err(CoreError::LanguageBinding)
        }
    }

    /// Read-only view of the current tree.
    pub fn current_tree(&self) -> (r: Option<&SyntaxNode>)
        ensures
            r is Some <==> self.tree is Some,
            r is Some ==> *r->Some_0 == self.tree->Some_0,
    {
        self.tree.as_ref()
    }

    /// Records one translated edit: the held tree's spans are carried into
    /// the post-edit coordinate space, the already-recorded regions with
    /// them, and the replaced region joins the record. Nothing is reparsed.
    /// Skipped entirely — a no-op — when no tree is held.
    pub fn apply_edit(&mut self, e: &TreeEdit)
        requires
            old(self).wf(),
            edit_wf(*e),
            e.old_end_byte <= old(self).doc_len,
            old(self).doc_len - e.old_end_byte + e.new_end_byte <= usize::MAX,
        ensures
            final(self).wf(),
            old(self).tree is None ==> *final(self) == *old(self),
            old(self).tree is Some ==> {
                &&& final(self).tree is Some
                &&& is_shifted(old(self).tree->Some_0, *e, final(self).tree->Some_0)
                &&& final(self).doc_len == old(self).doc_len - e.old_end_byte + e.new_end_byte
                &&& final(self).pending@ == old(self).pending@.map_values(
                    |r: ByteRegion| region_shift(r, *e),
                ).push((ByteRegion { start: e.start_byte, end: e.new_end_byte }))
                &&& final(self).language == old(self).language
                &&& final(self).reuse_ok == old(self).reuse_ok
            },
    {
        let cur = self.tree.take();
        match cur {
            None => {
                self.tree = None;
            },
            Some(t) => {
                let old_len = self.doc_len;
                let shifted = shift_node(&t, e, old_len);
                let mut newp: Vec<ByteRegion> = Vec::new();
                let mut i: usize = 0;
                while i < self.pending.len()
                    invariant
                        edit_wf(*e),
                        e.old_end_byte <= old_len,
                        old_len - e.old_end_byte + e.new_end_byte <= usize::MAX,
                        forall|j: int|
                            0 <= j < self.pending@.len() ==> region_bounded(
                                #[trigger] self.pending@[j],
                                old_len as int,
                            ),
                        i <= self.pending@.len(),
                        newp@.len() == i,
                        forall|j: int|
                            0 <= j < i ==> #[trigger] newp@[j] == region_shift(
                                self.pending@[j],
                                *e,
                            ),
                        forall|j: int|
                            0 <= j < i ==> region_bounded(
                                #[trigger] newp@[j],
                                old_len - e.old_end_byte + e.new_end_byte,
                            ),
                    decreases self.pending@.len() - i,
                {
                    let reg = self.pending[i];
                    proof {
                        lemma_shift_byte_monotone(reg.start as int, reg.end as int, *e);
                        lemma_shift_byte_bounds(reg.end as int, *e, old_len as int);
                        lemma_shift_byte_bounds(reg.start as int, *e, old_len as int);
                    }
                    let s = shift_byte_exec(reg.start, e, old_len);
                    let en = shift_byte_exec(reg.end, e, old_len);
                    newp.push(ByteRegion { start: s, end: en });
                    i = i + 1;
                }
                newp.push(ByteRegion { start: e.start_byte, end: e.new_end_byte });
                proof {
                    assert(newp@.drop_last() =~= old(self).pending@.map_values(
                        |r: ByteRegion| region_shift(r, *e),
                    ));
                    assert(newp@ =~= old(self).pending@.map_values(
                        |r: ByteRegion| region_shift(r, *e),
                    ).push((ByteRegion { start: e.start_byte, end: e.new_end_byte })));
                }
                self.tree = Some(shifted);
                self.pending = newp;
                self.doc_len = old_len - e.old_end_byte + e.new_end_byte;
            },
        }
    }

    /// Derives the engine's new tree from a fresh parse of the full current
    /// text, `text_len` bytes long. The fresh structure is kept as it is;
    /// the changed flags are derived from the recorded edit regions — none
    /// at all on a full parse, so a first parse (and a reparse of identical
    /// text) reports no node as changed. Afterwards nothing is pending and
    /// the new tree is reusable.
    pub fn reparse(&mut self, fresh: SyntaxNode, text_len: usize)
        requires
            old(self).wf(),
            node_bounded(fresh, text_len as int),
        ensures
            final(self).wf(),
            final(self).tree is Some,
            is_marked(fresh, old(self).regions_for_reparse(), final(self).tree->Some_0),
            final(self).pending@.len() == 0,
            final(self).reuse_ok,
            final(self).doc_len == text_len,
            final(self).language == old(self).language,
    {
        let marked = if self.reuse_ok && self.tree.is_some() {
            mark(&fresh, &self.pending)
        } else {
            let none_touched: Vec<ByteRegion> = Vec::new();
            proof {
                assert(none_touched@ =~= Seq::<ByteRegion>::empty());
            }
            mark(&fresh, &none_touched)
        };
        proof {
            lemma_marked_bounded(fresh, old(self).regions_for_reparse(), marked, text_len as int);
        }
        self.tree = Some(marked);
        self.pending = Vec::new();
        self.reuse_ok = true;
        self.doc_len = text_len;
    }

    /// Discards reuse eligibility and the recorded regions: the next
    /// reparse runs as a full parse. The recovery step after a rejected
    /// edit, so possibly corrupt bookkeeping never drives reuse.
    pub fn force_full(&mut self)
        requires
            old(self).wf(),
        ensures
            final(self).wf(),
            !final(self).reuse_ok,
            final(self).pending@.len() == 0,
            final(self).tree == old(self).tree,
            final(self).language == old(self).language,
            final(self).doc_len == old(self).doc_len,
    {
        self.reuse_ok = false;
        self.pending = Vec::new();
    }
}

/// Law (idempotence of full reparse): after any reparse nothing is pending,
/// so reparsing identical full text again — the grammar handing back an
/// equally-shaped fresh tree — yields a tree with the same node kinds and
/// ranges and with no changed flag anywhere.
pub proof fn lemma_reparse_idempotent(e: ParseEngine, fresh: SyntaxNode, second: SyntaxNode)
    requires
        e.pending@.len() == 0,
        is_marked(fresh, e.regions_for_reparse(), second),
    ensures
        all_clear(second),
        same_shape(second, fresh),
{
    assert(e.regions_for_reparse() =~= Seq::<ByteRegion>::empty());
    lemma_marked_clear(fresh, second);
}

/// Marking keeps every span, so it keeps the document bound.
pub proof fn lemma_marked_bounded(o: SyntaxNode, rs: Seq<ByteRegion>, m: SyntaxNode, len: int)
    requires
        is_marked(o, rs, m),
        node_bounded(o, len),
    ensures
        node_bounded(m, len),
    decreases o,
{
    assert forall|i: int| 0 <= i < m.children@.len() implies node_bounded(
        #[trigger] m.children@[i],
        len,
    ) by {
        lemma_marked_bounded(o.children@[i], rs, m.children@[i], len);
    }
}

} // verus!
