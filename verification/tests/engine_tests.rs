use syntree::{
    mark, resolve, shift_node, translate_delta, ByteRegion, CoreError, LanguageHandle, LineIndex,
    ParseEngine, Point, SyntaxNode, TextDelta, TreeEdit, SUPPORTED_ABI,
};

fn node(kind: &str, range: (usize, usize), children: Vec<SyntaxNode>) -> SyntaxNode {
    SyntaxNode {
        kind: kind.to_string(),
        kind_id: 0,
        start_byte: range.0,
        end_byte: range.1,
        has_changes: false,
        has_error: false,
        children,
    }
}

fn index(starts: Vec<usize>, text_len: usize) -> LineIndex {
    LineIndex::from_starts(starts, text_len).unwrap()
}

#[test]
fn line_index_validation() {
    assert!(LineIndex::from_starts(vec![], 5).is_none());
    assert!(LineIndex::from_starts(vec![1], 5).is_none());
    assert!(LineIndex::from_starts(vec![0, 3, 3], 5).is_none());
    assert!(LineIndex::from_starts(vec![0, 4, 2], 5).is_none());
    assert!(LineIndex::from_starts(vec![0, 9], 5).is_none());
    assert!(LineIndex::from_starts(vec![0, 3], 5).is_some());
    assert!(LineIndex::from_starts(vec![0], 0).is_some());
}

#[test]
fn point_of_offset_exact_rows_and_columns() {
    // text: "ab\ncd\n\nef" — lines start at 0, 3, 6, 7
    let ix = index(vec![0, 3, 6, 7], 9);
    assert_eq!(ix.point_of_offset(0), Point { row: 0, column: 0 });
    assert_eq!(ix.point_of_offset(2), Point { row: 0, column: 2 });
    assert_eq!(ix.point_of_offset(3), Point { row: 1, column: 0 });
    assert_eq!(ix.point_of_offset(5), Point { row: 1, column: 2 });
    assert_eq!(ix.point_of_offset(6), Point { row: 2, column: 0 });
    assert_eq!(ix.point_of_offset(7), Point { row: 3, column: 0 });
    assert_eq!(ix.point_of_offset(9), Point { row: 3, column: 2 });
}

#[test]
fn translate_insertion_inside_body() {
    // "fn a(){}" (8 bytes) with "x" inserted at byte 7
    let before = index(vec![0], 8);
    let after = index(vec![0], 9);
    let delta = TextDelta { start: 7, end: 7, new_length: 1 };
    let e = translate_delta(&delta, &before, &after).unwrap();
    assert_eq!(
        e,
        TreeEdit {
            start_byte: 7,
            old_end_byte: 7,
            new_end_byte: 8,
            start_point: Point { row: 0, column: 7 },
            old_end_point: Point { row: 0, column: 7 },
            new_end_point: Point { row: 0, column: 8 },
        }
    );
}

#[test]
fn translate_deletion_across_lines() {
    // before: "ab\ncd\nef" (8 bytes, lines at 0,3,6); delete [1,7) -> "af"
    let before = index(vec![0, 3, 6], 8);
    let after = index(vec![0], 2);
    let delta = TextDelta { start: 1, end: 7, new_length: 0 };
    let e = translate_delta(&delta, &before, &after).unwrap();
    assert_eq!(e.start_byte, 1);
    assert_eq!(e.old_end_byte, 7);
    assert_eq!(e.new_end_byte, 1);
    assert_eq!(e.start_point, Point { row: 0, column: 1 });
    assert_eq!(e.old_end_point, Point { row: 2, column: 1 });
    assert_eq!(e.new_end_point, Point { row: 0, column: 1 });
}

#[test]
fn translate_rejects_malformed_deltas() {
    let before = index(vec![0], 8);
    let after = index(vec![0], 9);
    // start past end
    let d1 = TextDelta { start: 5, end: 3, new_length: 1 };
    assert_eq!(
        translate_delta(&d1, &before, &after),
        Err(CoreError::MalformedEdit)
    );
    // end outside the old text
    let d2 = TextDelta { start: 0, end: 20, new_length: 1 };
    assert_eq!(
        translate_delta(&d2, &before, &after),
        Err(CoreError::MalformedEdit)
    );
    // replacement length inconsistent with the new text's length
    let d3 = TextDelta { start: 7, end: 7, new_length: 5 };
    assert_eq!(
        translate_delta(&d3, &before, &after),
        Err(CoreError::MalformedEdit)
    );
}

#[test]
fn mark_with_no_regions_clears_every_flag() {
    let mut inner = node("a", (0, 6), vec![node("c", (0, 3), vec![])]);
    inner.has_changes = true;
    inner.children[0].has_changes = true;
    let tree = node("root", (0, 10), vec![inner]);
    let marked = mark(&tree, &vec![]);
    assert!(!marked.has_changes);
    assert!(!marked.children[0].has_changes);
    assert!(!marked.children[0].children[0].has_changes);
}

#[test]
fn mark_touches_leaf_and_every_ancestor() {
    let tree = node(
        "root",
        (0, 10),
        vec![
            node("a", (0, 6), vec![node("c", (0, 3), vec![]), node("d", (3, 6), vec![])]),
            node("b", (6, 10), vec![]),
        ],
    );
    // a region inside c's span only
    let marked = mark(&tree, &vec![ByteRegion { start: 1, end: 2 }]);
    assert!(marked.has_changes); // root: ancestor of a touched node
    assert!(marked.children[0].has_changes); // a: ancestor and overlapping
    assert!(marked.children[0].children[0].has_changes); // c: touched
    assert!(!marked.children[1].has_changes); // b: untouched
    // shape untouched
    assert_eq!(marked.children[0].children[1].kind, "d");
    assert_eq!(marked.children[0].children[1].start_byte, 3);
}

#[test]
fn mark_zero_width_region_still_touches_boundary() {
    let tree = node("root", (0, 8), vec![node("b", (6, 8), vec![])]);
    // a pure deletion at byte 7 collapses to the region [7, 7]
    let marked = mark(&tree, &vec![ByteRegion { start: 7, end: 7 }]);
    assert!(marked.has_changes);
    assert!(marked.children[0].has_changes);
}

#[test]
fn set_language_rejects_invalid_handle() {
    let mut eng = ParseEngine::new();
    let bad = LanguageHandle { id: 1, abi: SUPPORTED_ABI.wrapping_add(1) };
    assert_eq!(eng.set_language(bad), Err(CoreError::LanguageBinding));
    assert!(eng.language.is_none());
    let good = resolve("C").unwrap();
    assert_eq!(eng.set_language(good), Ok(()));
    assert_eq!(eng.language, Some(good));
}

#[test]
fn apply_edit_without_tree_is_skipped() {
    let mut eng = ParseEngine::new();
    let e = TreeEdit {
        start_byte: 0,
        old_end_byte: 0,
        new_end_byte: 1,
        start_point: Point { row: 0, column: 0 },
        old_end_point: Point { row: 0, column: 0 },
        new_end_point: Point { row: 0, column: 1 },
    };
    eng.apply_edit(&e);
    assert!(eng.tree.is_none());
    assert!(eng.pending.is_empty());
}

#[test]
fn shift_node_carries_spans_into_the_new_coordinate_space() {
    let tree = node(
        "root",
        (0, 10),
        vec![
            node("left", (0, 2), vec![]),
            node("mid", (2, 4), vec![node("inner", (3, 4), vec![])]),
            node("right", (4, 10), vec![]),
        ],
    );
    // replace [2,4) with 5 bytes: positions >= 4 move by +3, inner ones
    // collapse to the new end 7
    let zero = Point { row: 0, column: 0 };
    let e = TreeEdit {
        start_byte: 2,
        old_end_byte: 4,
        new_end_byte: 7,
        start_point: zero,
        old_end_point: zero,
        new_end_point: zero,
    };
    let shifted = shift_node(&tree, &e, 10);
    assert_eq!((shifted.start_byte, shifted.end_byte), (0, 13));
    assert_eq!(
        (shifted.children[0].start_byte, shifted.children[0].end_byte),
        (0, 2)
    );
    assert_eq!(
        (shifted.children[1].start_byte, shifted.children[1].end_byte),
        (2, 7)
    );
    assert_eq!(
        (
            shifted.children[1].children[0].start_byte,
            shifted.children[1].children[0].end_byte
        ),
        (7, 7)
    );
    assert_eq!(
        (shifted.children[2].start_byte, shifted.children[2].end_byte),
        (7, 13)
    );
}
