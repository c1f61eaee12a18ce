use papyrus_language_server::cache_paths::{platform_cache_base_from, CacheEnvironment, CachePlatform};
use papyrus_language_server::index_cache::{is_generation_name, LimitedBuffer};
use papyrus_language_server::inference::Resolution;
use papyrus_language_server::issue_sort::order_issues;
use papyrus_language_server::line_index::{Position, TextRange};
use papyrus_language_server::names::identifier_range_before;
use papyrus_language_server::semantic::{
    Declaration, DeclarationKind, Parameter, SemanticAssignmentOperator, SemanticCallArgument,
    SemanticCallSite, SemanticExpression, SemanticLiteralKind, SemanticTypeCheck,
    SemanticUnaryOperator, TypeRef,
};
use papyrus_language_server::session::{
    indexing_event, progress_message, request_gate, requires_complete_index, IndexingEvent,
    IndexingProgress, IndexingStatus, ProgressReport, RequestGate, MAX_PENDING_INDEX_REQUESTS,
};
use papyrus_language_server::structure::{sanitize, validate, ByteRange};
use papyrus_language_server::type_system::{
    binary_result, combine_compatibility, Compatibility, ValueType,
};
use papyrus_language_server::validation::{validate_arguments, SemanticIssue, SemanticIssueCode};
use papyrus_language_server::workspace::{IndexedDocument, SemanticDocument, WorkspaceIndex};

fn pos(line: u32, character: u32) -> Position {
    Position { line, character }
}

fn range(line: u32, start: u32, end: u32) -> TextRange {
    TextRange { start: pos(line, start), end: pos(line, end) }
}

fn ty(name: &str) -> TypeRef {
    TypeRef { name: name.to_owned(), array: false }
}

fn declaration(name: &str, kind: DeclarationKind, t: Option<TypeRef>, selection: TextRange) -> Declaration {
    Declaration {
        name: name.to_owned(),
        kind,
        ty: t,
        parameters: Vec::new(),
        owner_script: Some("Project".to_owned()),
        container: None,
        selection_range: selection,
        scope: ByteRange { start: 0, end: 1000 },
        documentation: None,
        is_const: false,
        is_read_only: false,
        is_global: false,
    }
}

fn workspace(declarations: Vec<Declaration>, type_checks: Vec<SemanticTypeCheck>) -> WorkspaceIndex {
    WorkspaceIndex {
        documents: vec![IndexedDocument {
            path: None,
            priority: 0,
            content_hash: Vec::new(),
            semantic: SemanticDocument {
                uri: "file:///Project.psc".to_owned(),
                text: String::new(),
                script_name: Some("Project".to_owned()),
                parent_script: None,
                imports: Vec::new(),
                declarations,
                occurrences: Vec::new(),
                call_sites: Vec::new(),
                member_accesses: Vec::new(),
                type_checks,
                symbols: Vec::new(),
            },
        }],
    }
}

fn literal(kind: SemanticLiteralKind, r: TextRange) -> SemanticExpression {
    SemanticExpression::Literal { kind, range: r }
}

fn script_declarations() -> Vec<Declaration> {
    let mut read_only = declaration("Fixed", DeclarationKind::Property, Some(ty("Int")), range(2, 0, 5));
    read_only.is_read_only = true;
    vec![
        declaration("Project", DeclarationKind::Script, None, range(0, 11, 18)),
        declaration("Count", DeclarationKind::Variable, Some(ty("Int")), range(1, 4, 9)),
        read_only,
    ]
}

#[test]
fn negating_a_string_reports_the_operator_and_the_operand() {
    let ws = workspace(script_declarations(), Vec::new());
    let e = SemanticExpression::Unary {
        operator: SemanticUnaryOperator::Negate,
        operator_range: range(5, 10, 11),
        argument: Box::new(literal(SemanticLiteralKind::String, range(5, 11, 16))),
        range: range(5, 10, 16),
    };
    let mut issues: Vec<SemanticIssue> = Vec::new();
    let result = ws.validate_expression(0, &e, &mut issues);
    assert!(matches!(result, Resolution::Unsupported));
    assert_eq!(issues.len(), 1);
    assert_eq!(issues[0].code, SemanticIssueCode::InvalidUnaryOperand);
    assert_eq!(issues[0].code.text(), "invalid-unary-operand");
    assert_eq!(issues[0].message, "Operator '-' cannot be applied to String");
    assert_eq!(issues[0].range, range(5, 10, 11));
}

#[test]
fn valid_initializer_and_assignment_have_no_issues() {
    let checks = vec![
        SemanticTypeCheck::Initializer {
            expected: ty("Float"),
            value: literal(SemanticLiteralKind::Int, range(3, 12, 13)),
        },
        SemanticTypeCheck::Assignment {
            target: SemanticExpression::Identifier {
                name: "Count".to_owned(),
                byte_offset: 40,
                range: range(4, 2, 7),
            },
            operator: SemanticAssignmentOperator::Add,
            operator_range: range(4, 8, 10),
            value: literal(SemanticLiteralKind::Int, range(4, 11, 12)),
        },
    ];
    let ws = workspace(script_declarations(), checks);
    assert!(ws.semantic_diagnostics("file:///Project.psc").is_empty());
}

#[test]
fn type_errors_are_reported_in_order_with_their_codes() {
    let checks = vec![
        SemanticTypeCheck::Assignment {
            target: SemanticExpression::Identifier {
                name: "Fixed".to_owned(),
                byte_offset: 60,
                range: range(6, 2, 7),
            },
            operator: SemanticAssignmentOperator::Assign,
            operator_range: range(6, 8, 9),
            value: literal(SemanticLiteralKind::Int, range(6, 10, 11)),
        },
        SemanticTypeCheck::Initializer {
            expected: ty("Int"),
            value: literal(SemanticLiteralKind::String, range(3, 10, 15)),
        },
        SemanticTypeCheck::Return { expected: Some(ty("Int")), value: None, range: range(7, 2, 8) },
        SemanticTypeCheck::Return {
            expected: None,
            value: Some(literal(SemanticLiteralKind::Int, range(8, 9, 10))),
            range: range(8, 2, 10),
        },
        SemanticTypeCheck::Initializer {
            expected: ty("Int"),
            value: literal(SemanticLiteralKind::String, range(3, 10, 15)),
        },
    ];
    let ws = workspace(script_declarations(), checks);
    let issues = ws.semantic_diagnostics("file:///Project.psc");
    let summary: Vec<(&str, String)> =
        issues.iter().map(|i| (i.code.text(), i.message.clone())).collect();
    assert_eq!(
        summary,
        vec![
            ("incompatible-assignment", "Cannot initialize String to Int".to_owned()),
            ("invalid-assignment-target", "'Fixed' is not writable".to_owned()),
            ("missing-return-value", "Return statement requires a Int value".to_owned()),
            ("unexpected-return-value", "This function or event does not return a value".to_owned()),
        ]
    );
    assert!(ws.semantic_diagnostics("file:///Other.psc").is_empty());
}

#[test]
fn condition_without_a_value_is_reported() {
    let mut function = declaration("NoValue", DeclarationKind::Function, None, range(9, 9, 16));
    function.parameters = Vec::new();
    let mut declarations = script_declarations();
    declarations.push(function);
    let checks = vec![SemanticTypeCheck::Condition {
        value: SemanticExpression::Call {
            function: Box::new(SemanticExpression::Identifier {
                name: "NoValue".to_owned(),
                byte_offset: 120,
                range: range(10, 5, 12),
            }),
            arguments: Vec::new(),
            range: range(10, 5, 14),
        },
    }];
    let ws = workspace(declarations, checks);
    let issues = ws.semantic_diagnostics("file:///Project.psc");
    assert_eq!(issues.len(), 1);
    assert_eq!(issues[0].code.text(), "invalid-condition");
    assert_eq!(issues[0].message, "Condition requires a value, but expression produces no value");
}

fn argument(name: Option<&str>, r: TextRange) -> SemanticCallArgument {
    SemanticCallArgument {
        name: name.map(|n| n.to_owned()),
        range: r,
        name_range: name.map(|_| r),
        byte_range: ByteRange { start: 0, end: 0 },
    }
}

fn callee() -> Declaration {
    let mut f = declaration("Calc", DeclarationKind::Function, Some(ty("Int")), range(0, 0, 4));
    f.parameters = vec![
        Parameter { name: "Value".to_owned(), ty: ty("Int"), has_default: false },
        Parameter { name: "Extra".to_owned(), ty: ty("Int"), has_default: false },
        Parameter { name: "Mode".to_owned(), ty: ty("Int"), has_default: true },
    ];
    f
}

fn call(arguments: Vec<SemanticCallArgument>) -> SemanticCallSite {
    SemanticCallSite {
        callee_range: range(1, 0, 4),
        argument_range: ByteRange { start: 5, end: 20 },
        separators: Vec::new(),
        arguments,
        complete: true,
    }
}

#[test]
fn arguments_report_unknown_duplicate_extra_and_missing() {
    let mut issues = Vec::new();
    validate_arguments(
        &callee(),
        &call(vec![
            argument(Some("value"), range(1, 5, 6)),
            argument(Some("VALUE"), range(1, 8, 9)),
            argument(Some("Other"), range(1, 11, 12)),
        ]),
        &mut issues,
    );
    let messages: Vec<String> = issues.iter().map(|i| i.message.clone()).collect();
    assert_eq!(
        messages,
        vec![
            "Duplicate argument for parameter 'VALUE'".to_owned(),
            "Unknown named argument 'Other' for 'Calc'".to_owned(),
            "Missing required argument for 'Calc': Extra".to_owned(),
        ]
    );

    let mut issues = Vec::new();
    validate_arguments(
        &callee(),
        &call(vec![
            argument(None, range(1, 5, 6)),
            argument(None, range(1, 8, 9)),
            argument(None, range(1, 11, 12)),
            argument(None, range(1, 14, 15)),
            argument(None, range(1, 17, 18)),
        ]),
        &mut issues,
    );
    assert_eq!(issues.len(), 1);
    assert_eq!(issues[0].code, SemanticIssueCode::TooManyArguments);
    assert_eq!(issues[0].message, "Too many arguments for 'Calc': expected at most 3");
    assert_eq!(issues[0].range, range(1, 14, 15));

    let mut issues = Vec::new();
    validate_arguments(&callee(), &call(Vec::new()), &mut issues);
    assert_eq!(issues.len(), 1);
    assert_eq!(issues[0].message, "Missing required arguments for 'Calc': Value, Extra");
}

#[test]
fn duplicate_parameter_names_skip_argument_checks() {
    let mut f = callee();
    f.parameters.push(Parameter { name: "value".to_owned(), ty: ty("Int"), has_default: false });
    let mut issues = Vec::new();
    validate_arguments(&f, &call(vec![argument(Some("Nope"), range(1, 5, 6))]), &mut issues);
    assert!(issues.is_empty());
}

fn issue(line: u32, code: SemanticIssueCode, message: &str) -> SemanticIssue {
    SemanticIssue { range: range(line, 0, 1), code, message: message.to_owned() }
}

#[test]
fn issues_are_sorted_and_deduplicated() {
    let issues = vec![
        issue(3, SemanticIssueCode::VoidValueUse, "b"),
        issue(1, SemanticIssueCode::UnresolvedType, "a"),
        issue(3, SemanticIssueCode::InvalidCast, "z"),
        issue(1, SemanticIssueCode::UnresolvedType, "a"),
        issue(3, SemanticIssueCode::VoidValueUse, "a"),
    ];
    let ordered = order_issues(&issues);
    let keys: Vec<(u32, &str, &str)> = ordered
        .iter()
        .map(|i| (i.range.start.line, i.code.text(), i.message.as_str()))
        .collect();
    assert_eq!(
        keys,
        vec![
            (1, "unresolved-type", "a"),
            (3, "invalid-cast", "z"),
            (3, "void-value-use", "a"),
            (3, "void-value-use", "b"),
        ]
    );
}

#[test]
fn declaration_name_resolves_to_the_declaration() {
    let ws = workspace(script_declarations(), Vec::new());
    match ws.resolve_at_outcome(0, pos(1, 6)) {
        Resolution::Resolved(d) => {
            assert_eq!(d.document, 0);
            assert_eq!(d.declaration, 1);
        }
        _ => panic!("expected the declaration"),
    }
    assert!(matches!(ws.resolve_at_outcome(0, pos(40, 0)), Resolution::Unsupported));
}

#[test]
fn generation_names_follow_the_cache_layout() {
    let prefix = "semantic-index-v3-";
    let good = format!("{prefix}{}-{}-{}.json", "0".repeat(32), "abcdef01", "0123456789ABCDEF");
    assert!(is_generation_name(&good, prefix));
    let short = format!("{prefix}{}-{}-{}.json", "0".repeat(31), "abcdef01", "0123456789abcdef");
    assert!(!is_generation_name(&short, prefix));
    let not_hex = format!("{prefix}{}-{}-{}.json", "g".repeat(32), "abcdef01", "0123456789abcdef");
    assert!(!is_generation_name(&not_hex, prefix));
    let wrong_extension = format!("{prefix}{}-{}-{}.jsn", "0".repeat(32), "abcdef01", "0123456789abcdef");
    assert!(!is_generation_name(&wrong_extension, prefix));
    assert!(!is_generation_name("other.json", prefix));
}

#[test]
fn limited_buffer_refuses_writes_past_its_limit() {
    let mut buffer = LimitedBuffer::new(5);
    assert_eq!(buffer.write(b"abc"), Ok(3));
    assert!(buffer.write(b"def").is_err());
    assert_eq!(buffer.write(b"de"), Ok(2));
    assert!(buffer.flush().is_ok());
    assert_eq!(buffer.into_inner(), b"abcde".to_vec());
}

#[test]
fn index_dependent_requests_wait_or_are_refused() {
    assert!(requires_complete_index("textDocument/hover"));
    assert!(requires_complete_index("workspace/symbol"));
    assert!(!requires_complete_index("textDocument/documentSymbol"));
    assert_eq!(request_gate("textDocument/documentSymbol", true, true, 0), RequestGate::Handle);
    assert_eq!(request_gate("textDocument/hover", true, false, 0), RequestGate::RejectIndexingError);
    assert_eq!(request_gate("textDocument/hover", false, true, 0), RequestGate::Defer);
    assert_eq!(
        request_gate("textDocument/hover", false, true, MAX_PENDING_INDEX_REQUESTS),
        RequestGate::RejectRetry
    );
    assert_eq!(request_gate("textDocument/hover", false, false, 0), RequestGate::Handle);
}

fn status(active: bool) -> IndexingStatus {
    IndexingStatus {
        running: true,
        error: None,
        latest_progress: None,
        progress_active: active,
        progress_finished: None,
    }
}

#[test]
fn progress_and_completion_are_reported() {
    let progress = IndexingProgress { phase: "Scanning", files: 12, bytes: 3 * 1024 * 1024 + 5, message: None };
    assert_eq!(progress_message(&progress), "Scanning: 12 files, 3 MiB");
    let mut s = status(true);
    let update = indexing_event(&mut s, IndexingEvent::Progress(progress));
    assert!(!update.finished);
    assert!(matches!(update.report, Some(ProgressReport::Report(ref m)) if m == "Scanning: 12 files, 3 MiB"));

    let update = indexing_event(&mut s, IndexingEvent::Completed(Ok(())));
    assert!(update.finished && update.succeeded);
    assert!(matches!(update.report, Some(ProgressReport::End(ref m)) if m == "Workspace indexing complete"));
    assert!(!s.running && !s.progress_active && s.error.is_none());

    let mut s = status(false);
    let update = indexing_event(&mut s, IndexingEvent::Completed(Err("workspace indexing cancelled".to_owned())));
    assert!(update.finished && !update.succeeded && update.report.is_none());
    let error = s.error.unwrap();
    assert!(error.cancelled);
    assert_eq!(
        error.message,
        "Workspace indexing was cancelled; index-dependent requests cannot be completed."
    );
    assert_eq!(s.progress_finished.as_deref(), Some("Workspace indexing cancelled"));

    let mut s = status(true);
    let update = indexing_event(&mut s, IndexingEvent::Completed(Err("disk full".to_owned())));
    assert!(matches!(update.report, Some(ProgressReport::End(ref m)) if m == "Workspace indexing failed: disk full"));
    assert!(!s.error.unwrap().cancelled);

    let mut s = status(true);
    let _ = indexing_event(&mut s, IndexingEvent::Disconnected);
    assert_eq!(s.error.unwrap().message, "Workspace indexing failed unexpectedly");
}

#[test]
fn identifier_before_skips_blanks() {
    let r = identifier_range_before("Call  (x)", 6).unwrap();
    assert_eq!((r.start, r.end), (0, 4));
    assert!(identifier_range_before("  (", 2).is_none());
    let r = identifier_range_before("a.Foo\t(", 6).unwrap();
    assert!(identifier_range_before("a.Foo\t(", 99).is_none());
    assert_eq!((r.start, r.end), (2, 5));
}

#[test]
fn cache_base_follows_platform_conventions() {
    let env = CacheEnvironment {
        local_app_data: Some(r"C:\Users\Me\AppData\Local".to_owned()),
        home: Some("/home/me/".to_owned()),
        xdg_cache_home: Some("relative/cache".to_owned()),
    };
    assert_eq!(
        platform_cache_base_from(&env, CachePlatform::Windows).as_deref(),
        Some(r"C:\Users\Me\AppData\Local")
    );
    assert_eq!(platform_cache_base_from(&env, CachePlatform::Unix).as_deref(), Some("/home/me/.cache"));
    assert_eq!(
        platform_cache_base_from(&env, CachePlatform::MacOs).as_deref(),
        Some("/home/me/Library/Caches")
    );
    assert_eq!(platform_cache_base_from(&env, CachePlatform::Other), None);
    let xdg = CacheEnvironment { local_app_data: Some("relative".to_owned()), home: None, xdg_cache_home: Some("/var/cache".to_owned()) };
    assert_eq!(platform_cache_base_from(&xdg, CachePlatform::Unix).as_deref(), Some("/var/cache"));
    assert_eq!(platform_cache_base_from(&xdg, CachePlatform::Windows), None);
}

#[test]
fn compatibility_combination_is_symmetric() {
    let all = [
        Compatibility::Compatible,
        Compatibility::Incompatible,
        Compatibility::Ambiguous,
        Compatibility::Unresolved,
    ];
    for a in all {
        for b in all {
            assert_eq!(combine_compatibility(a, b), combine_compatibility(b, a));
        }
    }
}

#[test]
fn comparisons_produce_bool() {
    let int = ValueType::Known(ty("Int"));
    let float = ValueType::Known(ty("Float"));
    match binary_result(papyrus_language_server::semantic::SemanticBinaryOperator::Less, &int, &float) {
        Some(ValueType::Known(t)) => assert_eq!(t.name, "Bool"),
        _ => panic!("expected Bool"),
    }
}

#[test]
fn sanitizing_keeps_length_and_line_breaks() {
    let source = b"x = \"If\" ; EndIf\r\nEndFunction";
    let masked = sanitize(source);
    assert_eq!(masked.len(), source.len());
    for (a, b) in source.iter().zip(masked.iter()) {
        if *a == b'\n' || *a == b'\r' {
            assert_eq!(a, b);
        }
    }
    assert!(!String::from_utf8(masked).unwrap().contains("EndIf"));
}

#[test]
fn unclosed_blocks_are_reported_at_the_end_of_the_document() {
    let source = "Function F()\nIf x\n";
    let issues = validate(source);
    assert_eq!(issues.len(), 2);
    assert_eq!(issues[0].message(), "Missing EndIf");
    assert_eq!(issues[1].message(), "Missing EndFunction");
    for issue in &issues {
        assert_eq!(issue.code(), "missing-closing-keyword");
        assert_eq!(issue.range, ByteRange { start: source.len(), end: source.len() });
    }
    assert_eq!(source.len(), 18);
}
