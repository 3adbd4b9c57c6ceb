//! The pipeline against a real grammar: tree-sitter parses Rust source, the
//! parsed tree is handed to the library as plain values, and the library
//! derives the changed-node payload.

use syntree::{
    translate_delta, walk_preorder, DocumentSession, LineIndex, ParseAction, SyntaxNode, TextDelta,
};
use tree_sitter::{InputEdit, Parser, Point};

fn convert(node: tree_sitter::Node) -> SyntaxNode {
    let mut children = Vec::new();
    for i in 0..node.child_count() {
        children.push(convert(node.child(i).unwrap()));
    }
    SyntaxNode {
        kind: node.kind().to_string(),
        kind_id: node.kind_id(),
        start_byte: node.start_byte(),
        end_byte: node.end_byte(),
        has_changes: false,
        has_error: node.has_error(),
        children,
    }
}

fn line_index(text: &str) -> LineIndex {
    let mut starts = vec![0usize];
    for (i, b) in text.bytes().enumerate() {
        if b == b'\n' {
            starts.push(i + 1);
        }
    }
    LineIndex::from_starts(starts, text.len()).unwrap()
}

fn rust_parser() -> Parser {
    let mut parser = Parser::new();
    parser
        .set_language(&tree_sitter_rust::LANGUAGE.into())
        .unwrap();
    parser
}

#[test]
fn full_parse_then_incremental_edit() {
    let mut parser = rust_parser();
    let text = "fn a(){}";

    let ts_tree = parser.parse(text, None).unwrap();
    let fresh = convert(ts_tree.root_node());
    assert_eq!(fresh.kind, "source_file");

    let mut session = DocumentSession::new();
    let action = session.on_language("Rust");
    assert!(matches!(action, ParseAction::RunParse(_)));

    // first parse: the baseline, nothing changed
    let payload = session.finish_parse(fresh, text.len());
    assert!(payload.is_empty());

    // insert "x" at byte 7, inside the function body
    let new_text = "fn a(){x}";
    let delta = TextDelta { start: 7, end: 7, new_length: 1 };
    let before = line_index(text);
    let after = line_index(new_text);
    let action = session.on_edit(&delta, &before, &after);
    assert!(matches!(action, ParseAction::RunParse(_)));

    // the host runs the grammar incrementally, using the same translation
    let e = translate_delta(&delta, &before, &after).unwrap();
    let mut edited = ts_tree;
    edited.edit(&InputEdit {
        start_byte: e.start_byte,
        old_end_byte: e.old_end_byte,
        new_end_byte: e.new_end_byte,
        start_position: Point { row: e.start_point.row, column: e.start_point.column },
        old_end_position: Point { row: e.old_end_point.row, column: e.old_end_point.column },
        new_end_position: Point { row: e.new_end_point.row, column: e.new_end_point.column },
    });
    let reparsed = parser.parse(new_text, Some(&edited)).unwrap();
    let fresh2 = convert(reparsed.root_node());

    let payload = session.finish_parse(fresh2, new_text.len());
    assert!(payload.contains(&"source_file".to_string()));
    assert!(payload.contains(&"function_item".to_string()));
    let pos = |k: &str| payload.iter().position(|p| p == k).unwrap();
    assert!(pos("source_file") < pos("function_item"));
}

#[test]
fn incremental_and_scratch_parses_agree_structurally() {
    let mut parser = rust_parser();
    let text = "fn a(){}";
    let new_text = "fn a(){x}";

    let mut first = parser.parse(text, None).unwrap();
    let before = line_index(text);
    let after = line_index(new_text);
    let delta = TextDelta { start: 7, end: 7, new_length: 1 };
    let e = translate_delta(&delta, &before, &after).unwrap();
    first.edit(&InputEdit {
        start_byte: e.start_byte,
        old_end_byte: e.old_end_byte,
        new_end_byte: e.new_end_byte,
        start_position: Point { row: e.start_point.row, column: e.start_point.column },
        old_end_position: Point { row: e.old_end_point.row, column: e.old_end_point.column },
        new_end_position: Point { row: e.new_end_point.row, column: e.new_end_point.column },
    });
    let incremental = convert(parser.parse(new_text, Some(&first)).unwrap().root_node());
    let scratch = convert(rust_parser().parse(new_text, None).unwrap().root_node());

    let a = walk_preorder(&incremental);
    let b = walk_preorder(&scratch);
    assert_eq!(a.len(), b.len());
    for (x, y) in a.iter().zip(b.iter()) {
        assert_eq!(x.kind, y.kind);
        assert_eq!(x.kind_id, y.kind_id);
        assert_eq!(x.start_byte, y.start_byte);
        assert_eq!(x.end_byte, y.end_byte);
    }
}

#[test]
fn grammar_errors_are_data_not_failures() {
    let mut parser = rust_parser();
    let broken = "fn a({";
    let tree = parser.parse(broken, None).unwrap();
    let fresh = convert(tree.root_node());
    assert!(fresh.has_error);
    let mut session = DocumentSession::new();
    session.on_language("Rust");
    // a tree that could not fully match still flows through as a tree
    let payload = session.finish_parse(fresh, broken.len());
    assert!(payload.is_empty());
}
