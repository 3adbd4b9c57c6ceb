use syntree::{
    DocumentSession, LineIndex, ParseAction, SessionManager, SyntaxNode, TextDelta,
};

fn node(kind: &str, range: (usize, usize), children: Vec<SyntaxNode>) -> SyntaxNode {
    SyntaxNode {
        kind: kind.to_string(),
        kind_id: 0,
        start_byte: range.0,
        end_byte: range.1,
        has_changes: false,
        has_error: false,
        children,
    }
}

/// The tree a grammar would give for `"fn a(){}"`.
fn fresh_fn_a() -> SyntaxNode {
    node(
        "source_file",
        (0, 8),
        vec![node(
            "function_item",
            (0, 8),
            vec![
                node("identifier", (3, 4), vec![]),
                node("parameters", (4, 6), vec![]),
                node("block", (6, 8), vec![]),
            ],
        )],
    )
}

/// The tree a grammar would give for `"fn a(){x}"` (one byte inserted at 7).
fn fresh_fn_a_x() -> SyntaxNode {
    node(
        "source_file",
        (0, 9),
        vec![node(
            "function_item",
            (0, 9),
            vec![
                node("identifier", (3, 4), vec![]),
                node("parameters", (4, 6), vec![]),
                node("block", (6, 9), vec![node("identifier", (7, 8), vec![])]),
            ],
        )],
    )
}

fn one_line(len: usize) -> LineIndex {
    LineIndex::from_starts(vec![0], len).unwrap()
}

#[test]
fn open_parse_edit_reparse_scenario() {
    let mut session = DocumentSession::new();

    // open with language "Rust": a full parse is requested
    let action = session.on_language("Rust");
    let handle = match action {
        ParseAction::RunParse(h) => h,
        ParseAction::NoParse => panic!("a recognized language must request a parse"),
    };
    assert_eq!(handle.id, 12);

    // first parse: the node set is the baseline, nothing reports as changed
    let payload = session.finish_parse(fresh_fn_a(), 8);
    assert!(payload.is_empty());

    // insert "x" at byte 7, inside the block
    let delta = TextDelta { start: 7, end: 7, new_length: 1 };
    let action = session.on_edit(&delta, &one_line(8), &one_line(9));
    assert!(matches!(action, ParseAction::RunParse(_)));

    // reparse: everything on the path from the touched region to the root
    // is in the payload, in preorder — the root comes first
    let payload = session.finish_parse(fresh_fn_a_x(), 9);
    assert!(payload.contains(&"source_file".to_string()));
    assert!(payload.contains(&"function_item".to_string()));
    assert!(payload.contains(&"block".to_string()));
    let pos = |k: &str| payload.iter().position(|p| p == k).unwrap();
    assert!(pos("source_file") < pos("function_item"));
    assert!(pos("function_item") < pos("block"));
    // the untouched identifier of the function name is not invalidated
    assert!(!payload.contains(&"parameters".to_string()));
}

#[test]
fn reparse_of_identical_text_reports_nothing_changed() {
    let mut session = DocumentSession::new();
    session.on_language("Rust");
    let first = session.finish_parse(fresh_fn_a(), 8);
    assert!(first.is_empty());
    // save: full reparse, the previous tree purely a reuse hint
    let action = session.on_save();
    assert!(matches!(action, ParseAction::RunParse(_)));
    let second = session.finish_parse(fresh_fn_a(), 8);
    assert!(second.is_empty());
}

#[test]
fn unrecognized_language_skips_highlighting() {
    let mut session = DocumentSession::new();
    assert_eq!(session.on_language("COBOL"), ParseAction::NoParse);
    // an edit without a bound language asks for nothing
    let delta = TextDelta { start: 0, end: 0, new_length: 1 };
    assert_eq!(
        session.on_edit(&delta, &one_line(8), &one_line(9)),
        ParseAction::NoParse
    );
    assert_eq!(session.on_save(), ParseAction::NoParse);
}

#[test]
fn malformed_edit_is_rejected_and_recovery_is_a_full_parse() {
    let mut session = DocumentSession::new();
    session.on_language("Rust");
    let baseline = session.finish_parse(fresh_fn_a(), 8);
    assert!(baseline.is_empty());

    // ranges inconsistent with the snapshots: rejected, no parse requested
    let bad = TextDelta { start: 6, end: 2, new_length: 1 };
    assert_eq!(
        session.on_edit(&bad, &one_line(8), &one_line(9)),
        ParseAction::NoParse
    );

    // the next save still parses; with reuse discarded it runs full, so the
    // identical fresh tree reports nothing changed rather than reusing
    // possibly corrupt bookkeeping
    assert!(matches!(session.on_save(), ParseAction::RunParse(_)));
    let payload = session.finish_parse(fresh_fn_a(), 8);
    assert!(payload.is_empty());
}

#[test]
fn language_change_forces_full_reparse() {
    let mut session = DocumentSession::new();
    session.on_language("Rust");
    session.finish_parse(fresh_fn_a(), 8);
    // switch grammar: edit-based reuse across grammars is never attempted
    let action = session.on_language("C");
    assert!(matches!(action, ParseAction::RunParse(_)));
    let payload = session.finish_parse(fresh_fn_a(), 8);
    // a full parse is the baseline again: nothing reported as changed
    assert!(payload.is_empty());
}

#[test]
fn manager_routes_events_by_identity() {
    let mut mgr = SessionManager::new();
    assert!(matches!(mgr.open(1, "Rust"), ParseAction::RunParse(_)));
    assert!(matches!(mgr.open(2, "C"), ParseAction::RunParse(_)));
    assert!(mgr.is_open(1));
    assert!(mgr.is_open(2));

    assert!(mgr.finish_parse(1, fresh_fn_a(), 8).is_empty());

    let delta = TextDelta { start: 7, end: 7, new_length: 1 };
    let action = mgr.edit(1, &delta, &one_line(8), &one_line(9));
    assert!(matches!(action, ParseAction::RunParse(_)));
    let payload = mgr.finish_parse(1, fresh_fn_a_x(), 9);
    assert!(payload.contains(&"function_item".to_string()));

    mgr.close(1);
    assert!(!mgr.is_open(1));
    assert!(mgr.is_open(2));
}

#[test]
fn events_for_closed_or_unknown_documents_are_silent_noops() {
    let mut mgr = SessionManager::new();
    assert!(matches!(mgr.open(7, "Rust"), ParseAction::RunParse(_)));
    assert!(mgr.finish_parse(7, fresh_fn_a(), 8).is_empty());

    let delta = TextDelta { start: 7, end: 7, new_length: 1 };

    // never-opened identity: no payload, no action, no effect
    assert_eq!(mgr.edit(99, &delta, &one_line(8), &one_line(9)), ParseAction::NoParse);
    assert!(mgr.finish_parse(99, fresh_fn_a_x(), 9).is_empty());
    assert_eq!(mgr.save(99), ParseAction::NoParse);
    assert_eq!(mgr.language_changed(99, "Rust"), ParseAction::NoParse);
    assert!(!mgr.is_open(99));

    // closed identity: same silence
    mgr.close(7);
    assert_eq!(mgr.edit(7, &delta, &one_line(8), &one_line(9)), ParseAction::NoParse);
    assert!(mgr.finish_parse(7, fresh_fn_a_x(), 9).is_empty());

    // and none of it disturbed another open document
    assert!(matches!(mgr.open(8, "Go"), ParseAction::RunParse(_)));
    assert!(mgr.finish_parse(8, fresh_fn_a(), 8).is_empty());
    assert_eq!(mgr.edit(7, &delta, &one_line(8), &one_line(9)), ParseAction::NoParse);
    assert!(mgr.is_open(8));
    assert!(matches!(mgr.save(8), ParseAction::RunParse(_)));
}

#[test]
fn closing_a_session_drops_engine_and_tree() {
    let mut session = DocumentSession::new();
    session.on_language("Rust");
    session.finish_parse(fresh_fn_a(), 8);
    session.on_close();
    // no language bound any more: nothing to parse
    assert_eq!(session.on_save(), ParseAction::NoParse);
}
