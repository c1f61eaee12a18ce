use papyrus_language_server::index_cache::{generation_id, unix_path_key, windows_path_key};
use papyrus_language_server::discovery::library_folders;
use papyrus_language_server::completion::CompletionKind;
use papyrus_language_server::config::WorkspaceConfig;
use papyrus_language_server::line_index::{Position, TextRange};
use papyrus_language_server::member_accesses::{collect_member_accesses, is_trimmed_dot};
use papyrus_language_server::line_index::LineIndex;
use papyrus_language_server::paths::PathStyle;
use papyrus_language_server::rename::FileSystemView;
use papyrus_language_server::semantic::{
    Declaration, DeclarationKind, Parameter, SemanticCallArgument, SemanticCallSite, SemanticExpression,
    SemanticOccurrence, SemanticOccurrenceKind, TypeRef,
};
use papyrus_language_server::structure::ByteRange;
use papyrus_language_server::symbols::{declaration_children, DocumentSymbol, SymbolKind};
use papyrus_language_server::syntax::{NodeKind, SyntaxNode};
use papyrus_language_server::workspace::{DeclRef, IndexedDocument, SemanticDocument, WorkspaceIndex};

const SOURCE: &str = "Scriptname A\nFunction Run(Int Count)\nRun(5)\nEndFunction\n";

fn pos(line: u32, character: u32) -> Position {
    Position { line, character }
}

fn span(line: u32, start: u32, end: u32) -> TextRange {
    TextRange { start: pos(line, start), end: pos(line, end) }
}

fn ty(name: &str) -> TypeRef {
    TypeRef { name: name.to_owned(), array: false }
}

fn decl(
    name: &str,
    kind: DeclarationKind,
    container: Option<&str>,
    selection: TextRange,
    scope: ByteRange,
) -> Declaration {
    Declaration {
        name: name.to_owned(),
        kind,
        ty: None,
        parameters: Vec::new(),
        owner_script: Some("A".to_owned()),
        container: container.map(|c| c.to_owned()),
        selection_range: selection,
        scope,
        documentation: None,
        is_const: false,
        is_read_only: false,
        is_global: false,
    }
}

/// The script `A` with a function `Run(Int Count)` and a call `Run(5)`.
fn workspace() -> WorkspaceIndex {
    let mut run = decl("Run", DeclarationKind::Function, None, span(1, 9, 12), ByteRange { start: 0, end: 56 });
    run.parameters = vec![Parameter { name: "Count".to_owned(), ty: ty("Int"), has_default: false }];
    run.documentation = Some("Runs.".to_owned());
    let mut count = decl("Count", DeclarationKind::Parameter, Some("Run"), span(1, 17, 22), ByteRange { start: 13, end: 55 });
    count.ty = Some(ty("Int"));
    let mut script = decl("A", DeclarationKind::Script, None, span(0, 11, 12), ByteRange { start: 0, end: 56 });
    script.owner_script = None;
    let call = SemanticCallSite {
        callee_range: span(2, 0, 3),
        argument_range: ByteRange { start: 41, end: 42 },
        separators: Vec::new(),
        arguments: vec![SemanticCallArgument {
            name: None,
            range: span(2, 4, 5),
            name_range: None,
            byte_range: ByteRange { start: 41, end: 42 },
        }],
        complete: true,
    };
    let occurrence = SemanticOccurrence {
        name: "Run".to_owned(),
        receiver: None,
        selection_range: span(2, 0, 3),
        byte_offset: 37,
        is_named_argument_label: false,
        kind: SemanticOccurrenceKind::Reference,
    };
    WorkspaceIndex {
        documents: vec![IndexedDocument {
            path: Some("/project/A.psc".to_owned()),
            priority: 1,
            content_hash: vec![1, 2, 3],
            semantic: SemanticDocument {
                uri: "file:///project/A.psc".to_owned(),
                text: SOURCE.to_owned(),
                script_name: Some("A".to_owned()),
                parent_script: None,
                imports: Vec::new(),
                declarations: vec![script, run, count],
                occurrences: vec![occurrence],
                call_sites: vec![call],
                member_accesses: Vec::new(),
                type_checks: Vec::new(),
                symbols: vec![DocumentSymbol {
                    name: "A".to_owned(),
                    kind: SymbolKind::Class,
                    range: span(0, 0, 12),
                    selection_range: span(0, 11, 12),
                    children: vec![DocumentSymbol {
                        name: "Run".to_owned(),
                        kind: SymbolKind::Function,
                        range: span(1, 0, 23),
                        selection_range: span(1, 9, 12),
                        children: Vec::new(),
                    }],
                }],
            },
        }],
    }
}

fn config() -> WorkspaceConfig {
    let mut config = WorkspaceConfig::default();
    config.source_roots = vec!["/project".to_owned()];
    config
}

fn file_system() -> FileSystemView {
    FileSystemView { style: PathStyle::Unix, destination_exists: false, current_path: "/project/A.psc".to_owned() }
}

#[test]
fn signatures_show_return_type_name_and_parameters() {
    let ws = workspace();
    let run = &ws.documents[0].semantic.declarations[1];
    assert_eq!(run.signature(), "Run(Int Count)");
    let count = &ws.documents[0].semantic.declarations[2];
    assert_eq!(count.signature(), "Int Count");
    let mut typed = run.clone();
    typed.ty = Some(TypeRef { name: "Float".to_owned(), array: true });
    assert_eq!(typed.signature(), "Float[] Run(Int Count)");
}

#[test]
fn hover_shows_signature_owner_documentation_and_source() {
    let ws = workspace();
    let hover = ws.hover(0, pos(1, 10)).unwrap();
    assert_eq!(
        hover.value,
        "```papyrus\nRun(Int Count)\n```\n\nDeclared by `A`.\n\nRuns.\n\nSource: `file:///project/A.psc`"
    );
    assert_eq!(hover.range, Some(span(1, 9, 12)));
    assert!(ws.hover(0, pos(3, 20)).is_none());
}

#[test]
fn selection_range_prefers_declarations_then_occurrences_then_words() {
    let ws = workspace();
    assert_eq!(ws.selection_range_at(0, pos(1, 10)), Some(span(1, 9, 12)));
    assert_eq!(ws.selection_range_at(0, pos(2, 1)), Some(span(2, 0, 3)));
    assert_eq!(ws.selection_range_at(0, pos(3, 2)), Some(span(3, 0, 11)));
    assert_eq!(ws.selection_range_at(0, pos(2, 5)), Some(span(2, 4, 5)));
    assert_eq!(ws.selection_range_at(0, pos(2, 6)), None);
}

#[test]
fn signature_help_maps_the_argument_to_its_parameter() {
    let ws = workspace();
    let help = ws.signature_help(0, pos(2, 4)).unwrap();
    assert_eq!(help.label, "Run(Int Count)");
    assert_eq!(help.parameters, vec!["Int Count".to_owned()]);
    assert_eq!(help.active_parameter, Some(0));
    assert_eq!(help.documentation.as_deref(), Some("Runs."));
    assert!(ws.signature_help(0, pos(0, 3)).is_none());
}

#[test]
fn references_are_sorted_and_include_the_declaration_on_request() {
    let ws = workspace();
    let with = ws.references(0, pos(2, 1), true);
    assert_eq!(with.len(), 2);
    assert_eq!(with[0].range, span(1, 9, 12));
    assert_eq!(with[1].range, span(2, 0, 3));
    assert!(with.iter().all(|l| l.uri == "file:///project/A.psc"));
    let without = ws.references(0, pos(1, 10), false);
    assert_eq!(without.len(), 1);
    assert_eq!(without[0].range, span(2, 0, 3));
}

#[test]
fn canonical_declaration_of_a_unique_script_member_is_itself() {
    let ws = workspace();
    let run = DeclRef { document: 0, declaration: 1 };
    assert_eq!(ws.canonical_declaration(run), run);
    assert!(ws.is_navigation_document(0));
}

#[test]
fn completion_offers_visible_names_scripts_and_primitives_in_order() {
    let ws = workspace();
    let items = ws.completion(0, pos(2, 0));
    let labels: Vec<&str> = items.iter().map(|i| i.label.as_str()).collect();
    assert_eq!(labels, vec!["A", "Bool", "Count", "Float", "Int", "Run", "String", "Var"]);
    assert_eq!(items[0].kind, CompletionKind::Class);
    assert_eq!(items[2].kind, CompletionKind::Variable);
    assert_eq!(items[5].kind, CompletionKind::Function);
    assert_eq!(items[5].detail, "Run(Int Count)");
    assert_eq!(items[1].kind, CompletionKind::TypeParameter);
    assert_eq!(items[1].detail, "Papyrus primitive type");
}

#[test]
fn instance_completion_follows_the_receiver_type_and_skips_constants() {
    let mut ws = workspace();
    {
        let declarations = &mut ws.documents[0].semantic.declarations;
        let mut other = declarations[1].clone();
        other.name = "CONST_Limit".to_owned();
        other.kind = DeclarationKind::Property;
        declarations.push(other);
        let mut local = declarations[2].clone();
        local.name = "Me".to_owned();
        local.kind = DeclarationKind::Variable;
        local.ty = Some(ty("A"));
        local.container = Some("Run".to_owned());
        declarations.push(local);
    }
    ws.documents[0].semantic.member_accesses = vec![papyrus_language_server::semantic::SemanticMemberAccess {
        receiver: SemanticExpression::Identifier { name: "Me".to_owned(), byte_offset: 37, range: span(2, 0, 2) },
        completion_range: ByteRange { start: 40, end: 40 },
    }];
    let items = ws.completion(0, pos(2, 3));
    let labels: Vec<&str> = items.iter().map(|i| i.label.as_str()).collect();
    assert_eq!(labels, vec!["Run"]);
}

#[test]
fn rename_edits_declaration_and_references_once_each() {
    let ws = workspace();
    let edit = ws.rename(0, pos(1, 10), "Walk", true, false, &config(), &file_system()).unwrap().unwrap();
    assert!(edit.versioned);
    assert!(edit.file_rename.is_none());
    assert_eq!(edit.documents.len(), 1);
    let document = &edit.documents[0];
    assert_eq!(document.uri, "file:///project/A.psc");
    let ranges: Vec<TextRange> = document.edits.iter().map(|e| e.range).collect();
    assert_eq!(ranges, vec![span(1, 9, 12), span(2, 0, 3)]);
    assert!(document.edits.iter().all(|e| e.new_text == "Walk"));
}

#[test]
fn rename_uses_open_document_versions() {
    let ws = workspace();
    let versions = vec![("file:///project/A.psc".to_owned(), 7)];
    let edit = ws
        .rename_with_versions(0, pos(1, 10), "Walk", true, false, &versions, &config(), &file_system())
        .unwrap()
        .unwrap();
    assert_eq!(edit.documents[0].version, Some(7));
}

#[test]
fn rename_rejects_keywords_invalid_names_and_outside_declarations() {
    let ws = workspace();
    let keyword = ws.rename(0, pos(1, 10), "While", true, false, &config(), &file_system());
    assert_eq!(keyword.unwrap_err(), "`While` is a reserved Papyrus keyword.");
    let invalid = ws.rename(0, pos(1, 10), "Bad Name", true, false, &config(), &file_system());
    assert_eq!(invalid.unwrap_err(), "`Bad Name` is not a valid Papyrus identifier.");
    let mut outside = config();
    outside.source_roots = vec!["/elsewhere".to_owned()];
    let external = ws.rename(0, pos(1, 10), "Walk", true, false, &outside, &file_system());
    assert_eq!(external.unwrap_err(), "Only declarations in project source roots can be renamed.");
    let unresolved = ws.rename(0, pos(3, 20), "Walk", true, false, &config(), &file_system());
    assert_eq!(unresolved.unwrap_err(), "The rename target does not resolve uniquely.");
}

#[test]
fn rename_rejects_a_name_already_in_scope() {
    let mut ws = workspace();
    let mut other = ws.documents[0].semantic.declarations[1].clone();
    other.name = "Walk".to_owned();
    other.selection_range = span(3, 0, 4);
    ws.documents[0].semantic.declarations.push(other);
    let result = ws.rename(0, pos(1, 10), "Walk", true, false, &config(), &file_system());
    assert_eq!(result.unwrap_err(), "The name `Walk` is already visible in the target declaration's scope.");
}

#[test]
fn script_rename_needs_file_operations_and_renames_the_file() {
    let ws = workspace();
    let refused = ws.rename(0, pos(0, 11), "B", true, false, &config(), &file_system());
    assert_eq!(
        refused.unwrap_err(),
        "The editor does not support the file operation required to rename a Papyrus script."
    );
    let prepared = ws.prepare_rename(0, pos(0, 11), false, &config(), PathStyle::Unix);
    assert!(prepared.is_none());
    let (range, placeholder) = ws.prepare_rename(0, pos(0, 11), true, &config(), PathStyle::Unix).unwrap();
    assert_eq!(range, span(0, 11, 12));
    assert_eq!(placeholder, "A");
    let renamed = WorkspaceIndex::renamed_script_path("/project/A.psc", PathStyle::Unix, "Ns:B");
    assert_eq!(renamed, "/project/B.psc");
    let file = ws
        .script_file_rename(DeclRef { document: 0, declaration: 0 }, "B", PathStyle::Unix, false, "/project/A.psc")
        .unwrap()
        .unwrap();
    assert_eq!(file.old_uri, "file:///project/A.psc");
    assert_eq!(file.new_uri, "file:///project/B.psc");
    let occupied = ws.script_file_rename(DeclRef { document: 0, declaration: 0 }, "B", PathStyle::Unix, true, "/project/A.psc");
    assert_eq!(occupied.unwrap_err(), "Cannot rename the script because `/project/B.psc` already exists.");
    let case_only = ws.script_file_rename(DeclRef { document: 0, declaration: 0 }, "a", PathStyle::Unix, true, "/project/A.psc");
    assert!(case_only.unwrap().is_some());
    let across = ws.script_file_rename(DeclRef { document: 0, declaration: 0 }, "Ns:A2", PathStyle::Unix, false, "/project/A.psc");
    assert_eq!(across.unwrap_err(), "Renaming a script across namespaces is not supported.");
}

#[test]
fn workspace_symbols_filter_by_query_and_name_their_container() {
    let ws = workspace();
    let found = ws.workspace_symbols("RU");
    assert_eq!(found.len(), 1);
    assert_eq!(found[0].name, "Run");
    assert_eq!(found[0].container_name.as_deref(), Some("A"));
    assert_eq!(found[0].location.range, span(1, 9, 12));
    let all = ws.workspace_symbols("");
    let names: Vec<&str> = all.iter().map(|s| s.name.as_str()).collect();
    assert_eq!(names, vec!["A", "Run"]);
    assert_eq!(ws.document_symbols("file:///project/A.psc").unwrap().len(), 1);
    assert!(ws.document_symbols("file:///project/B.psc").is_none());
}

fn node(kind: NodeKind, field: Option<&str>, start: usize, end: usize, children: Vec<SyntaxNode>) -> SyntaxNode {
    SyntaxNode {
        kind,
        kind_name: String::new(),
        field: field.map(|f| f.to_owned()),
        named: true,
        missing: false,
        start,
        end,
        children,
    }
}

#[test]
fn declaration_children_nest_symbols_under_their_declarations() {
    let source = "Function Run(Int Count)";
    let parameter = node(
        NodeKind::Parameter,
        None,
        13,
        22,
        vec![node(NodeKind::Identifier, Some("name"), 17, 22, Vec::new())],
    );
    let function = node(
        NodeKind::FunctionDefinition,
        None,
        0,
        23,
        vec![node(NodeKind::Identifier, Some("name"), 9, 12, Vec::new()), parameter],
    );
    let root = node(NodeKind::Other, None, 0, 23, vec![function]);
    let symbols = declaration_children(&root, source, &LineIndex::new(source));
    assert_eq!(symbols.len(), 1);
    assert_eq!(symbols[0].name, "Run");
    assert_eq!(symbols[0].kind, SymbolKind::Function);
    assert_eq!(symbols[0].selection_range, span(0, 9, 12));
    assert_eq!(symbols[0].children.len(), 1);
    assert_eq!(symbols[0].children[0].name, "Count");
    assert_eq!(symbols[0].children[0].kind, SymbolKind::Variable);
}

#[test]
fn member_accesses_come_from_member_expressions_and_stray_dots() {
    let source = "a.b c .";
    let mut dot = node(NodeKind::Dot, None, 1, 2, Vec::new());
    dot.named = false;
    let member = node(
        NodeKind::MemberExpression,
        None,
        0,
        3,
        vec![
            node(NodeKind::Identifier, Some("object"), 0, 1, Vec::new()),
            dot,
            node(NodeKind::Identifier, Some("member"), 2, 3, Vec::new()),
        ],
    );
    let stray = node(NodeKind::Error, None, 5, 7, Vec::new());
    let root = node(
        NodeKind::Other,
        None,
        0,
        7,
        vec![member, node(NodeKind::Identifier, None, 4, 5, Vec::new()), stray],
    );
    let mut out = Vec::new();
    collect_member_accesses(&root, source, &LineIndex::new(source), &mut out);
    assert_eq!(out.len(), 2);
    assert_eq!(out[0].completion_range, ByteRange { start: 7, end: 7 });
    assert!(matches!(&out[0].receiver, SemanticExpression::Identifier { name, .. } if name == "c"));
    assert_eq!(out[1].completion_range, ByteRange { start: 2, end: 3 });
    assert!(matches!(&out[1].receiver, SemanticExpression::Identifier { name, .. } if name == "a"));
    assert!(is_trimmed_dot(b" .\t"));
    assert!(is_trimmed_dot(".\u{a0}".as_bytes()));
    assert!(!is_trimmed_dot(b".."));
    assert!(!is_trimmed_dot(b" "));
}

#[test]
fn library_folders_follow_the_root_with_each_listed_path_once() {
    let text = "\"libraryfolders\"\n{\n\t\"0\"\n\t{\n\t\t\"path\"\t\t\"D:\\\\Games\\\\Steam\"\r\n\t}\n\t\"1\"\n\t{\n\t\t\"Path\"\t\"D:\\\\Games\\\\Steam\"\n\t\t\"path\"\t\"E:\\\\Lib\"\n\t}\n}\n";
    let folders = library_folders("C:\\Steam", text);
    let folders: Vec<&[u8]> = folders.iter().map(|f| f.as_slice()).collect();
    assert_eq!(folders, vec![&b"C:\\Steam"[..], &b"D:\\Games\\Steam"[..], &b"E:\\Lib"[..]]);
    assert_eq!(library_folders("C:\\Steam", ""), vec![b"C:\\Steam".to_vec()]);
}

#[test]
fn cache_keys_and_generation_ids_are_fixed_width_hex() {
    assert_eq!(unix_path_key(b"/a"), "unix:2f61");
    assert_eq!(unix_path_key(b""), "unix:");
    assert_eq!(windows_path_key(&[0x43, 0x3a, 0xd83d]), "windows:0043003ad83d");
    assert_eq!(
        generation_id(0xabc, 0x12, u64::MAX),
        "00000000000000000000000000000abc-00000012-ffffffffffffffff"
    );
}
