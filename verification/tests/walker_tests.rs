use syntree::{changed_kinds, walk_preorder, NodeMeta, SyntaxNode, TreeIter};

fn node(kind: &str, kind_id: u16, range: (usize, usize), children: Vec<SyntaxNode>) -> SyntaxNode {
    SyntaxNode {
        kind: kind.to_string(),
        kind_id,
        start_byte: range.0,
        end_byte: range.1,
        has_changes: false,
        has_error: false,
        children,
    }
}

fn changed(mut n: SyntaxNode) -> SyntaxNode {
    n.has_changes = true;
    n
}

/// root(a(c, d), b) — five nodes.
fn sample_tree() -> SyntaxNode {
    node(
        "root",
        1,
        (0, 10),
        vec![
            node(
                "a",
                2,
                (0, 6),
                vec![node("c", 4, (0, 3), vec![]), node("d", 5, (3, 6), vec![])],
            ),
            node("b", 3, (6, 10), vec![]),
        ],
    )
}

fn kinds(metas: &[NodeMeta]) -> Vec<String> {
    metas.iter().map(|m| m.kind.clone()).collect()
}

#[test]
fn preorder_visits_every_node_exactly_once_in_order() {
    let tree = sample_tree();
    let out = walk_preorder(&tree);
    assert_eq!(out.len(), 5);
    assert_eq!(kinds(&out), vec!["root", "a", "c", "d", "b"]);
}

#[test]
fn preorder_parent_before_children() {
    let tree = sample_tree();
    let out = walk_preorder(&tree);
    let pos = |k: &str| out.iter().position(|m| m.kind == k).unwrap();
    assert!(pos("root") < pos("a"));
    assert!(pos("root") < pos("b"));
    assert!(pos("a") < pos("c"));
    assert!(pos("a") < pos("d"));
    assert!(pos("c") < pos("d"));
    assert!(pos("d") < pos("b"));
}

#[test]
fn preorder_single_node() {
    let tree = node("leaf", 7, (0, 0), vec![]);
    let out = walk_preorder(&tree);
    assert_eq!(out.len(), 1);
    assert_eq!(out[0].kind, "leaf");
    assert_eq!(out[0].kind_id, 7);
}

#[test]
fn walker_is_restartable_and_sequences_are_identical() {
    let tree = sample_tree();
    let mut first = TreeIter::new(&tree);
    let mut second = TreeIter::new(&tree);
    let mut seq1 = Vec::new();
    while let Some(m) = first.next(&tree) {
        seq1.push(m);
    }
    // the first walk being exhausted must not affect the second
    let mut seq2 = Vec::new();
    while let Some(m) = second.next(&tree) {
        seq2.push(m);
    }
    assert_eq!(seq1, seq2);
    assert_eq!(seq1.len(), 5);
    assert!(first.next(&tree).is_none());
}

#[test]
fn walker_emits_flags_and_ranges() {
    let tree = node(
        "root",
        1,
        (0, 4),
        vec![changed(node("kid", 2, (1, 3), vec![]))],
    );
    let out = walk_preorder(&tree);
    assert_eq!(out[0].start_byte, 0);
    assert_eq!(out[0].end_byte, 4);
    assert!(!out[0].has_changes);
    assert_eq!(out[1].start_byte, 1);
    assert_eq!(out[1].end_byte, 3);
    assert!(out[1].has_changes);
}

#[test]
fn changed_kinds_filters_in_preorder_without_dedup() {
    // root changed, a changed, c changed: ancestor and descendant both kept
    let tree = changed(node(
        "root",
        1,
        (0, 10),
        vec![
            changed(node(
                "a",
                2,
                (0, 6),
                vec![
                    changed(node("c", 4, (0, 3), vec![])),
                    node("d", 5, (3, 6), vec![]),
                ],
            )),
            node("b", 3, (6, 10), vec![]),
        ],
    ));
    let out = changed_kinds(&tree);
    assert_eq!(out, vec!["root", "a", "c"]);
}

#[test]
fn changed_kinds_empty_when_nothing_changed() {
    let tree = sample_tree();
    let out = changed_kinds(&tree);
    assert!(out.is_empty());
}
