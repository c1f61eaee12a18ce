use papyrus_language_server::config::{dialect_from_name, WorkspaceConfig};
use papyrus_language_server::discovery::quoted_value;
use papyrus_language_server::line_index::LineIndex;
use papyrus_language_server::paths::{
    file_uri_to_path, is_generated_source, normalize_windows_path, PathStyle,
};
use papyrus_language_server::structure::validate;
use papyrus_language_server::PapyrusDialect;

#[test]
fn rejects_non_file_relative_and_decorated_uris() {
    for style in [PathStyle::Unix, PathStyle::Windows] {
        assert!(file_uri_to_path("https://example.com/Script.psc", style).is_none());
        assert!(file_uri_to_path("file:relative/Script.psc", style).is_none());
        assert!(file_uri_to_path("file:///Script.psc?query", style).is_none());
        assert!(file_uri_to_path("file:///Script.psc#fragment", style).is_none());
        assert!(file_uri_to_path("file:///Bad%2", style).is_none());
    }
}

#[test]
fn converts_local_and_unc_windows_file_uris() {
    assert_eq!(
        file_uri_to_path("file:///C:/Projects/My%20Mod/Script.psc", PathStyle::Windows).unwrap(),
        r"C:\Projects\My Mod\Script.psc"
    );
    assert_eq!(
        file_uri_to_path("file://server/share/Script.psc", PathStyle::Windows).unwrap(),
        r"\\server\share\Script.psc"
    );
    assert_eq!(
        file_uri_to_path("file://localhost/C:/Projects/Script.psc", PathStyle::Windows).unwrap(),
        r"C:\Projects\Script.psc"
    );
}

#[test]
fn accepts_local_and_rejects_remote_unix_file_uris() {
    assert_eq!(
        file_uri_to_path("file:///workspace/My%20Mod/Script.psc", PathStyle::Unix).unwrap(),
        "/workspace/My Mod/Script.psc"
    );
    assert!(file_uri_to_path("file://server/share/Script.psc", PathStyle::Unix).is_none());
}

#[test]
fn reads_steam_key_values() {
    assert_eq!(
        quoted_value("\"installdir\" \t \"Starfield\"", "installdir").as_deref(),
        Some("Starfield")
    );
}

#[test]
fn filters_generated_fragments_but_retains_reusable_scripts() {
    for path in [
        "Scripts/Source/Fragments/Quests/QF_Test.psc",
        "Scripts/Source/PF_Test.psc",
        "Scripts/Source/TIF_Test.psc",
        "Scripts/Source/SF_Test.psc",
    ] {
        assert!(is_generated_source(path, PathStyle::Unix), "{path}");
    }
    assert!(!is_generated_source("Scripts/Source/Quest.psc", PathStyle::Unix));
    assert!(!is_generated_source("Scripts/Source/Perk.psc", PathStyle::Unix));
    assert!(!is_generated_source("Scripts/Source/éé.psc", PathStyle::Unix));
}

#[test]
fn identifies_missing_inner_closer() {
    let issues = validate("Function Run()\nIf True\nEndFunction\n");
    assert_eq!(issues.len(), 1);
    assert_eq!(issues[0].message(), "Missing EndIf before EndFunction");
}

#[test]
fn ignores_keywords_in_comments_and_strings() {
    let source = [
        "Function Run()\n",
        "  Debug.Trace(\"If EndFunction\")\n",
        "  ; If\n",
        "  { EndFunction }\n",
        "  ;/ While EndWhile /;\n",
        "EndFunction\n",
    ]
    .concat();
    let source = source.as_str();
    assert!(validate(source).is_empty());
}

#[test]
fn native_declarations_do_not_open_blocks() {
    let source = "Function NativeCall() Native\nEvent NativeEvent() Native\n";
    assert!(validate(source).is_empty());
}

#[test]
fn keywords_are_case_insensitive_with_crlf_input() {
    let source = "function Run()\r\nIF True\r\nendfunction\r\n";
    let issues = validate(source);
    assert_eq!(issues.len(), 1);
    assert_eq!(issues[0].message(), "Missing EndIf before EndFunction");
}

#[test]
fn native_declaration_can_continue_onto_another_line() {
    let source = ["Function NativeCall(Int Value, \\\n", "    Int OtherValue) Native\n"].concat();
    let source = source.as_str();
    assert!(validate(source).is_empty());
}

#[test]
fn normalizes_windows_extended_paths() {
    assert_eq!(
        normalize_windows_path(r"\\?\C:\Repositories\Project\Script.psc"),
        r"C:\Repositories\Project\Script.psc"
    );
    assert_eq!(
        normalize_windows_path(r"\\?\UNC\server\share\Script.psc"),
        r"\\server\share\Script.psc"
    );
}

#[test]
fn counts_utf16_code_units() {
    let text = "A😀B\r\nNext";
    let index = LineIndex::new(text);

    assert_eq!(index.position(text, "A😀".len()).line, 0);
    assert_eq!(index.position(text, "A😀".len()).character, 3);
    assert_eq!(index.position(text, "A😀B\r\n".len()).line, 1);
    assert_eq!(index.position(text, "A😀B\r\n".len()).character, 0);
}

#[test]
fn invalid_options_fall_back_and_workspace_folders_supply_roots() {
    let options: serde_json::Value =
        serde_json::from_str(r#"{ "papyrus": { "dialect": "unknown" } }"#).unwrap();
    let dialect = options["papyrus"]["dialect"].as_str().unwrap();
    let parsed = dialect_from_name(dialect).map(|dialect| WorkspaceConfig {
        dialect,
        ..WorkspaceConfig::default()
    });
    assert!(parsed.is_none());
    let invalid = WorkspaceConfig::from_initialize(parsed, &Vec::new(), None, PathStyle::Unix);
    let default = WorkspaceConfig::default();
    assert_eq!(invalid.dialect, default.dialect);
    assert_eq!(invalid.dialect, PapyrusDialect::Auto);
    assert_eq!(invalid.source_roots, default.source_roots);
    assert_eq!(invalid.import_directories, default.import_directories);

    let workspace_uri = "file:///workspace/My%20Mod";
    let config = WorkspaceConfig::from_initialize(
        None,
        &vec![workspace_uri.to_owned()],
        None,
        PathStyle::Unix,
    );
    assert_eq!(config.source_roots.len(), 1);
    assert!(config.source_roots[0].contains("My Mod"));

    let legacy = WorkspaceConfig::from_initialize(
        None,
        &vec!["https://example.com/ignored".to_owned()],
        Some(workspace_uri.to_owned()),
        PathStyle::Unix,
    );
    assert_eq!(legacy.source_roots.len(), 1);
    assert!(legacy.source_roots[0].contains("My Mod"));
}
