use papyrus_language_server::call_sites::collect_call_sites;
use papyrus_language_server::content_hash::normalized_content_hash;
use papyrus_language_server::config::WorkspaceConfig;
use papyrus_language_server::documents::DocumentStore;
use papyrus_language_server::extraction::extract;
use papyrus_language_server::line_index::{LineIndex, Position, TextRange};
use papyrus_language_server::occurrences::collect_occurrences;
use papyrus_language_server::paths::{path_to_file_uri_lexical, PathStyle};
use papyrus_language_server::semantic::{
    SemanticAssignmentOperator, SemanticExpression, SemanticLiteralKind, SemanticOccurrenceKind,
    SemanticTypeCheck,
};
use papyrus_language_server::structure::ByteRange;
use papyrus_language_server::syntax::{NodeKind, SyntaxNode};
use papyrus_language_server::type_checks::collect_type_checks;

fn node(kind: NodeKind, name: &str, field: Option<&str>, start: usize, end: usize, children: Vec<SyntaxNode>) -> SyntaxNode {
    SyntaxNode {
        kind,
        kind_name: name.to_owned(),
        field: field.map(|f| f.to_owned()),
        named: true,
        missing: false,
        start,
        end,
        children,
    }
}

fn token(kind: NodeKind, text: &str, field: Option<&str>, start: usize) -> SyntaxNode {
    let mut n = node(kind, text, field, start, start + text.len(), Vec::new());
    n.named = false;
    n
}

fn span(line: u32, start: u32, end: u32) -> TextRange {
    TextRange { start: Position { line, character: start }, end: Position { line, character: end } }
}

/// The tree of `x = 1`.
fn assignment_tree() -> SyntaxNode {
    let statement = node(
        NodeKind::AssignmentStatement,
        "assignment_statement",
        None,
        0,
        5,
        vec![
            node(NodeKind::Identifier, "identifier", Some("left"), 0, 1, Vec::new()),
            token(NodeKind::Other, "=", Some("operator"), 2),
            node(NodeKind::Integer, "integer", Some("right"), 4, 5, Vec::new()),
        ],
    );
    node(NodeKind::Other, "source_file", None, 0, 5, vec![statement])
}

/// The tree of `F(1, 2)`.
fn call_tree() -> SyntaxNode {
    let arguments = node(
        NodeKind::Other,
        "argument_list",
        Some("arguments"),
        1,
        7,
        vec![
            token(NodeKind::OpenParen, "(", None, 1),
            node(NodeKind::Argument, "argument", None, 2, 3, vec![node(NodeKind::Integer, "integer", Some("value"), 2, 3, Vec::new())]),
            token(NodeKind::Comma, ",", None, 3),
            node(NodeKind::Argument, "argument", None, 5, 6, vec![node(NodeKind::Integer, "integer", Some("value"), 5, 6, Vec::new())]),
            token(NodeKind::CloseParen, ")", None, 6),
        ],
    );
    let call = node(
        NodeKind::CallExpression,
        "call_expression",
        None,
        0,
        7,
        vec![node(NodeKind::Identifier, "identifier", Some("function"), 0, 1, Vec::new()), arguments],
    );
    node(NodeKind::Other, "source_file", None, 0, 7, vec![call])
}

#[test]
fn assignment_statement_gives_one_type_check() {
    let source = "x = 1";
    let index = LineIndex::new(source);
    let checks = collect_type_checks(&assignment_tree(), source, &index);
    assert_eq!(checks.len(), 1);
    match &checks[0] {
        SemanticTypeCheck::Assignment { target, operator, operator_range, value } => {
            assert_eq!(*operator, SemanticAssignmentOperator::Assign);
            assert_eq!(*operator_range, span(0, 2, 3));
            assert!(matches!(target, SemanticExpression::Identifier { name, byte_offset: 0, .. } if name == "x"));
            assert!(matches!(value, SemanticExpression::Literal { kind: SemanticLiteralKind::Int, .. }));
        }
        other => panic!("unexpected check {other:?}"),
    }
}

#[test]
fn call_expression_gives_its_argument_list() {
    let source = "F(1, 2)";
    let index = LineIndex::new(source);
    let mut calls = Vec::new();
    collect_call_sites(&call_tree(), source, &index, &Vec::new(), &mut calls);
    assert_eq!(calls.len(), 1);
    let call = &calls[0];
    assert_eq!(call.callee_range, span(0, 0, 1));
    assert_eq!(call.argument_range, ByteRange { start: 2, end: 6 });
    assert_eq!(call.separators, vec![3]);
    assert_eq!(call.arguments.len(), 2);
    assert_eq!(call.arguments[1].byte_range, ByteRange { start: 5, end: 6 });
    assert!(call.arguments[0].name.is_none());
    assert!(call.complete);
}

#[test]
fn identifiers_are_reference_occurrences() {
    let source = "x = 1";
    let index = LineIndex::new(source);
    let mut occurrences = Vec::new();
    collect_occurrences(
        &assignment_tree(),
        source,
        &index,
        &Vec::new(),
        SemanticOccurrenceKind::Reference,
        false,
        false,
        None,
        &mut occurrences,
    );
    assert_eq!(occurrences.len(), 1);
    assert_eq!(occurrences[0].name, "x");
    assert_eq!(occurrences[0].kind, SemanticOccurrenceKind::Reference);
    assert_eq!(occurrences[0].selection_range, span(0, 0, 1));
}

#[test]
fn unparsed_document_keeps_its_text_only() {
    let document = extract("file:///A.psc".to_owned(), "Scriptname A", None);
    assert_eq!(document.uri, "file:///A.psc");
    assert_eq!(document.text, "Scriptname A");
    assert!(document.script_name.is_none());
    assert!(document.imports.is_empty());
    assert!(document.member_accesses.is_empty());
}

#[test]
fn parsed_document_collects_checks() {
    let document = extract("file:///A.psc".to_owned(), "x = 1", Some(&assignment_tree()));
    assert_eq!(document.type_checks.len(), 1);
    assert_eq!(document.occurrences.len(), 1);
}

#[test]
fn content_hash_ignores_line_ending_style() {
    let crlf = normalized_content_hash("a\r\nb");
    let lf = normalized_content_hash("a\nb");
    assert_eq!(crlf, lf);
    assert_eq!(lf.len(), 32);
    assert_ne!(lf, b"a\nb".to_vec());
    assert_ne!(normalized_content_hash("a\nc"), lf);
}

#[test]
fn verbatim_and_unc_paths_become_file_uris() {
    assert_eq!(
        path_to_file_uri_lexical(r"\\?\C:\Repositories\Project\Script.psc"),
        "file:///C:/Repositories/Project/Script.psc"
    );
    assert_eq!(path_to_file_uri_lexical(r"\\?\UNC\server\share\Script.psc"), "file://server/share/Script.psc");
    assert_eq!(path_to_file_uri_lexical("/home/user/A B.psc"), "file:///home/user/A%20B.psc");
}

#[test]
fn document_store_tracks_open_documents() {
    let mut store = DocumentStore::new();
    assert!(store.get("file:///A.psc").is_none());
    store.open("file:///A.psc".to_owned(), "one".to_owned(), 1);
    assert_eq!(store.get("file:///A.psc").unwrap().text, "one");
    assert_eq!(store.get("file:///A.psc").unwrap().version, Some(1));
    assert!(store.change("file:///A.psc", "two".to_owned(), 2));
    assert_eq!(store.get("file:///A.psc").unwrap().text, "two");
    assert!(!store.change("file:///B.psc", "x".to_owned(), 1));
    assert!(store.save_text("file:///A.psc", "three".to_owned()));
    assert_eq!(store.get("file:///A.psc").unwrap().text, "three");
    let closed = store.close("file:///A.psc").unwrap();
    assert_eq!(closed.text, "three");
    assert!(store.get("file:///A.psc").is_none());
    assert!(store.close("file:///A.psc").is_none());
}

#[test]
fn sources_outrank_imports_by_priority() {
    let mut config = WorkspaceConfig::default();
    config.source_roots = vec!["/project/Source".to_owned()];
    config.import_directories = vec!["/game/Imports".to_owned()];
    config.discovered_import_directories = vec!["/game/Found".to_owned()];
    assert_eq!(config.path_priority("/project/Source/A.psc", PathStyle::Unix), 1);
    assert_eq!(config.path_priority("/game/Imports/A.psc", PathStyle::Unix), 2);
    assert_eq!(config.path_priority("/game/Found/A.psc", PathStyle::Unix), 3);
    assert_eq!(config.path_priority("/elsewhere/A.psc", PathStyle::Unix), 3);
}
