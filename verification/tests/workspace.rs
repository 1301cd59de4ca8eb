use locale_breeze::diagnostics::{
    clear_diagnostics, clear_uri_diagnostic, diagnostic_notifications, diagnostic_trace,
    publish_config_diagnostic, DiagnosticCache, FileDiagnostics, Severity,
};
use locale_breeze::edit::{apply_changes, prepare_insertion, TextChange};
use locale_breeze::issue::WorkspaceIssue;
use locale_breeze::json::{JsonFault, JsonFaultKind};
use locale_breeze::navigation::key_at_position;
use locale_breeze::path::Platform;
use locale_breeze::position::{Position, Range};
use locale_breeze::server::{initialization_roots, Folder};
use locale_breeze::status::WorkspaceStatus;
use locale_breeze::workspace::{DiskFile, Walked};
use locale_breeze::{
    CanonicalKey, Config, ConfigError, FullKeyFunctionConfig, ScopedFunctionConfig, WorkspaceIndex,
    WorkspacePreferences,
};

fn config(dictionaries: &str, full_key_function: &str) -> Config {
    Config {
        schema: None,
        dictionaries: dictionaries.into(),
        default_locale: "en".into(),
        default_namespace: None,
        key_separator: ".".into(),
        scoped_functions: vec![ScopedFunctionConfig {
            function_name: "useScopedTranslation".into(),
            default_namespace: None,
            translation_methods: vec!["t".into()],
        }],
        full_key_functions: vec![FullKeyFunctionConfig {
            function_name: full_key_function.into(),
            default_namespace: None,
        }],
        translation_key_types: vec![],
        translation_key_props: vec![],
        ignored_scopes: vec![],
    }
}

fn disk(path: &str, text: &str) -> DiskFile {
    DiskFile {
        path: path.into(),
        uri: Some(format!("file://{path}")),
        text: Ok(text.into()),
    }
}

fn walk(files: &[(&str, &str)]) -> Vec<Walked> {
    files.iter().map(|(path, text)| Walked::File(disk(path, text))).collect()
}

fn load_as(
    root: &str,
    config: Config,
    preferences: WorkspacePreferences,
    files: &[(&str, &str)],
) -> Result<WorkspaceIndex, ConfigError> {
    let found: Vec<DiskFile> = files.iter().map(|(path, text)| disk(path, text)).collect();
    WorkspaceIndex::load_with_preferences(root.into(), config, preferences, &found, &walk(files))
}

fn load(config: Config, files: &[(&str, &str)]) -> WorkspaceIndex {
    let found: Vec<DiskFile> = files.iter().map(|(path, text)| disk(path, text)).collect();
    WorkspaceIndex::load("/project".into(), config, &found, &walk(files)).unwrap()
}

fn key(text: &str) -> CanonicalKey {
    CanonicalKey::new(text, ".").unwrap()
}

fn at(line: u32, character: u32) -> Position {
    Position { line, character }
}

#[test]
fn workspace_partitions_ignored_keys_out_of_normal_indexes() {
    let config = Config {
        ignored_scopes: vec!["Server_Errors".into()],
        ..config("translation.{locale}.json", "i18next.t")
    };
    let source = "i18next.t('Page.title');i18next.t('Server_Errors.Invalid');const i18n=useScopedTranslation('Server_Errors');i18n.t('Invalid');";
    let workspace = load(
        config,
        &[
            (
                "/project/translation.en.json",
                r#"{"Page":{"title":"Title"},"Server_Errors":{"Invalid":"Invalid"}}"#,
            ),
            ("/project/app.ts", source),
        ],
    );
    let ignored = key("Server_Errors.Invalid");
    let normal = key("Page.title");
    let snapshot = workspace.snapshot();
    assert!(snapshot.dictionary_entries(&ignored).is_empty());
    assert!(snapshot.occurrences(&ignored).is_empty());
    assert_eq!(snapshot.occurrences(&normal).len(), 1);
    assert_eq!(snapshot.dictionary_entries(&normal).len(), 1);
    assert_eq!(snapshot.ignored_occurrences().len(), 2);
}

#[test]
fn loads_and_incrementally_replaces_a_workspace() {
    let mut workspace = load(
        config("dict/translation.{locale}.json", "i18next.t"),
        &[
            (
                "/project/dict/translation.en.json",
                r#"{"Page":{"Login":{"submit":"Sign in"}}}"#,
            ),
            (
                "/project/app.tsx",
                "const i18n=useScopedTranslation('Page.Login'); i18n.t('submit')",
            ),
        ],
    );
    let submit = key("Page.Login.submit");
    assert_eq!(workspace.snapshot().occurrences(&submit).len(), 1);
    let generation = workspace.snapshot().generation();
    workspace.update_text(
        "file:///project/app.tsx",
        "i18next.t('Page.Login.cancel')".into(),
        Some(1),
    );
    assert!(workspace.snapshot().occurrences(&submit).is_empty());
    assert_eq!(workspace.snapshot().generation(), generation + 1);
}

#[test]
fn reports_malformed_dictionary_during_workspace_load() {
    let result = load_as(
        "/project",
        config("translation.{locale}.json", "i18next.t"),
        WorkspacePreferences::default(),
        &[("/project/translation.en.json", "{ invalid")],
    );
    assert!(matches!(result, Err(ConfigError::InvalidDictionary { .. })));
}

#[test]
fn recovers_after_an_invalid_intermediate_dictionary_edit() {
    let mut workspace = load(
        config("translation.{locale}.json", "i18next.t"),
        &[("/project/translation.en.json", r#"{"Page":{"old":"Old"}}"#)],
    );
    let uri = "file:///project/translation.en.json";

    workspace.update_text(uri, r#"{"Page":{"new":}}"#.into(), Some(1));
    assert_eq!(workspace.snapshot().text(uri), Some(r#"{"Page":{"new":}}"#));

    workspace.update_text(uri, r#"{"Page":{"new":"New"}}"#.into(), Some(2));
    assert_eq!(workspace.snapshot().dictionary_entries(&key("Page.new")).len(), 1);
}

#[test]
fn external_disk_change_refreshes_an_open_document_and_resets_its_version() {
    let path = "/project/translation.en.json";
    let mut workspace = load(
        config("translation.{locale}.json", "i18next.t"),
        &[(path, r#"{"Page":{"key":"Value"}}"#)],
    );
    let uri = "file:///project/translation.en.json";

    workspace.update_text(uri, r#"{"Page":{"key":"Editor"}}"#.into(), Some(10));
    let disk_text = "{\n  \"Page\": {\n    \"key\": \"External\"\n  }\n}";
    let _ = workspace.refresh_disk_path(&disk(path, disk_text));
    assert_eq!(workspace.snapshot().text(uri), Some(disk_text));

    // An editor may restart its document version after reloading an
    // external change. The disk refresh must let that lower version win.
    workspace.update_text(uri, r#"{"Page":{"key":"Reloaded"}}"#.into(), Some(1));
    assert_eq!(
        workspace.snapshot().text(uri),
        Some(r#"{"Page":{"key":"Reloaded"}}"#)
    );
}

#[test]
fn an_older_version_is_ignored() {
    let mut workspace = load(
        config("translation.{locale}.json", "i18next.t"),
        &[("/project/translation.en.json", r#"{"a":"A"}"#)],
    );
    let uri = "file:///project/translation.en.json";
    workspace.update_text(uri, r#"{"b":"B"}"#.into(), Some(3));
    let generation = workspace.snapshot().generation();
    workspace.update_text(uri, r#"{"c":"C"}"#.into(), Some(3));
    workspace.update_text(uri, r#"{"c":"C"}"#.into(), Some(2));
    assert_eq!(workspace.snapshot().text(uri), Some(r#"{"b":"B"}"#));
    assert_eq!(workspace.snapshot().version(uri), Some(3));
    assert_eq!(workspace.snapshot().generation(), generation);
    workspace.update_text(uri, r#"{"d":"D"}"#.into(), None);
    assert_eq!(workspace.snapshot().text(uri), Some(r#"{"d":"D"}"#));
}

#[test]
fn closing_brings_back_what_is_on_disk() {
    let path = "/project/app.ts";
    let uri = "file:///project/app.ts";
    let mut workspace = load(
        config("translation.{locale}.json", "i18next.t"),
        &[
            ("/project/translation.en.json", r#"{"a":"A"}"#),
            (path, "i18next.t('a')"),
        ],
    );
    workspace.update_text(uri, "".into(), Some(1));
    assert!(workspace.snapshot().occurrences(&key("a")).is_empty());
    workspace.close_document(uri, &disk(path, "i18next.t('a')"));
    assert_eq!(workspace.snapshot().occurrences(&key("a")).len(), 1);
    let gone = DiskFile {
        path: path.into(),
        uri: Some(uri.into()),
        text: Err("no such file".into()),
    };
    workspace.close_document(uri, &gone);
    assert_eq!(workspace.snapshot().text(uri), None);
}

#[test]
fn loading_needs_the_default_locale() {
    let result = load_as(
        "/project",
        config("translation.{locale}.json", "i18next.t"),
        WorkspacePreferences::default(),
        &[("/project/translation.de.json", r#"{"a":"A"}"#)],
    );
    assert!(matches!(
        result,
        Err(ConfigError::MissingDefaultLocale(locale)) if locale == "en"
    ));
    let result = load_as(
        "/project",
        config("translation.json", "i18next.t"),
        WorkspacePreferences::default(),
        &[],
    );
    assert!(matches!(result, Err(ConfigError::LocaleToken)));
}

#[test]
fn a_dictionary_that_cannot_be_read_is_reported() {
    let workspace = load(
        config("translation.{locale}.json", "i18next.t"),
        &[("/project/translation.en.json", r#"{"a":"A"}"#)],
    );
    let file = DiskFile {
        path: "/project/translation.de.json".into(),
        uri: Some("file:///project/translation.de.json".into()),
        text: Err("denied".into()),
    };
    let issue = workspace.find_issue(&file).unwrap();
    assert_eq!(issue.message, "could not read dictionary: denied");
    assert_eq!(issue.line, None);
    let broken = disk("/project/translation.de.json", "{\n\"a\":}");
    let issue = workspace.find_issue(&broken).unwrap();
    assert_eq!((issue.line, issue.column), (Some(2), Some(5)));
    assert_eq!(
        issue.message,
        "dictionary is not valid JSON: expected value at line 2 column 5"
    );
    assert!(workspace.find_issue(&disk("/project/app.ts", "{")).is_none());
}

#[test]
fn runtime_preferences_control_unused_key_diagnostics() {
    let files = [("/project/translation.en.json", r#"{"unused":"Value"}"#)];
    let configured = load(config("translation.{locale}.json", "translate"), &files);
    assert!(configured.preferences().show_unused_keys);
    let hidden = load_as(
        "/project",
        config("translation.{locale}.json", "translate"),
        WorkspacePreferences { show_unused_keys: false },
        &files,
    )
    .unwrap();
    assert!(!hidden.preferences().show_unused_keys);
    assert!(diagnostic_notifications(&hidden, &mut DiagnosticCache::new()).is_empty());
    assert_eq!(
        diagnostic_notifications(&configured, &mut DiagnosticCache::new()).len(),
        1
    );
}

#[test]
fn suppresses_duplicate_unused_key_diagnostics() {
    let path = "/project/translation.en.json";
    let mut workspace = load(
        config("translation.{locale}.json", "translate"),
        &[(path, r#"{"my_key":"Value"}"#)],
    );
    let mut published = DiagnosticCache::new();

    let first = diagnostic_notifications(&workspace, &mut published);
    assert_eq!(first.len(), 1);
    assert_eq!(first[0].uri, "file:///project/translation.en.json");
    assert_eq!(first[0].diagnostics.len(), 1);
    assert_eq!(first[0].diagnostics[0].severity, Severity::Warning);
    assert_eq!(
        first[0].diagnostics[0].message,
        "Translation key \"my_key\" seems unused"
    );
    assert!(first[0].diagnostics[0].unnecessary);
    assert!(diagnostic_notifications(&workspace, &mut published).is_empty());

    let _ = workspace.refresh_disk_path(&disk(path, "{\n\n  \"my_key\": \"Value\"\n}"));
    let refreshed = diagnostic_notifications(&workspace, &mut published);
    assert_eq!(refreshed.len(), 1);
    assert_eq!(refreshed[0].diagnostics.len(), 1);
    assert_eq!(refreshed[0].diagnostics[0].range.start.line, 2);

    assert_eq!(
        clear_diagnostics(&workspace, &mut published),
        vec!["file:///project/translation.en.json"]
    );
    assert_eq!(diagnostic_notifications(&workspace, &mut published).len(), 1);
}

#[test]
fn a_file_without_warnings_is_told_of_once_more() {
    let mut workspace = load(
        config("translation.{locale}.json", "i18next.t"),
        &[("/project/translation.en.json", r#"{"a":"A"}"#)],
    );
    let mut published = DiagnosticCache::new();
    assert_eq!(diagnostic_notifications(&workspace, &mut published).len(), 1);
    workspace.update_text("file:///project/app.ts", "i18next.t('a')".into(), Some(1));
    let told = diagnostic_notifications(&workspace, &mut published);
    assert_eq!(told.len(), 1);
    assert!(told[0].diagnostics.is_empty());
    assert!(diagnostic_notifications(&workspace, &mut published).is_empty());
}

#[test]
fn the_log_shows_what_is_told() {
    let workspace = load(
        config("translation.{locale}.json", "translate"),
        &[("/project/translation.en.json", r#"{"k":"V"}"#)],
    );
    let told = diagnostic_notifications(&workspace, &mut DiagnosticCache::new());
    assert_eq!(
        diagnostic_trace(42, &told[0]),
        "LocaleBreeze diagnostics pid=42 uri=file:///project/translation.en.json count=1 [0:2-0:3 Translation key \"k\" seems unused]"
    );
}

#[test]
fn workspace_status_reports_metrics_when_unused_diagnostics_are_disabled() {
    let workspace = load_as(
        "/home/app",
        config("../translations/translation.{locale}.json", "translate"),
        WorkspacePreferences::default(),
        &[
            (
                "/home/translations/translation.en.json",
                r#"{"used":"Used","unused":"Unused"}"#,
            ),
            ("/home/translations/translation.fr.json", r#"{"used":"Utilisé"}"#),
            ("/home/app/src/app.ts", r#"i18next.t("used")"#),
        ],
    )
    .unwrap();
    let status = WorkspaceStatus::from_workspace(&workspace, "/home/app/locale-breeze.json");

    assert_eq!(status.dictionary_file_count, 2);
    assert_eq!(status.total_key_count, 2);
    assert_eq!(status.unused_key_count, 1);
    assert_eq!(status.default_locale, "en");
    assert_eq!(status.dictionary_root_path, "/home/translations");
    assert_eq!(
        status.default_dictionary_path,
        Some("/home/translations/translation.en.json".to_owned())
    );
    assert!(status.generation > 0);
    assert_eq!(status.version, 1);
    assert_eq!(status.workspace_root, "/home/app");
    assert_eq!(status.config_path, "/home/app/locale-breeze.json");
}

#[test]
fn distinguishes_configuration_shape_errors_from_invalid_json() {
    let data = |message: &str| {
        ConfigError::Json(JsonFault {
            kind: JsonFaultKind::Data,
            message: message.into(),
            line: 6,
            column: 26,
        })
    };
    let unknown = data(
        "unknown field `unexpected`, expected one of `$schema`, `dictionaries` at line 6 column 26",
    );
    let issue = WorkspaceIssue::from_config_error(&unknown, "locale-breeze.json");
    assert_eq!(issue.code, "config_schema");
    assert_eq!(
        issue.summary,
        "Unknown LocaleBreeze configuration field `unexpected`"
    );
    assert_eq!((issue.line, issue.column), (Some(6), Some(26)));

    let wrong_scoped_function = data(
        "invalid type: string \"useScopedTranslation\", expected struct ScopedFunctionConfig at line 4 column 57",
    );
    let issue = WorkspaceIssue::from_config_error(&wrong_scoped_function, "locale-breeze.json");
    assert_eq!(
        issue.summary,
        "Invalid LocaleBreeze configuration value. Expected { functionName: string; defaultNamespace?: string; translationMethods: string[] }"
    );

    let error = serde_json::from_str::<serde_json::Value>("{").unwrap_err();
    let syntax = ConfigError::Json(JsonFault {
        kind: JsonFaultKind::Eof,
        message: error.to_string(),
        line: error.line(),
        column: error.column(),
    });
    let issue = WorkspaceIssue::from_config_error(&syntax, "locale-breeze.json");
    assert_eq!(issue.code, "config_json");
    assert_eq!(
        issue.summary,
        "LocaleBreeze configuration contains invalid JSON"
    );

    let missing = data("missing field `dictionaries` at line 1 column 2");
    let issue = WorkspaceIssue::from_config_error(&missing, "locale-breeze.json");
    assert_eq!(
        issue.summary,
        "Missing required LocaleBreeze configuration field `dictionaries`"
    );
    let double = data("duplicate field `dictionaries` at line 1 column 2");
    let issue = WorkspaceIssue::from_config_error(&double, "locale-breeze.json");
    assert_eq!(
        issue.summary,
        "Duplicate LocaleBreeze configuration field `dictionaries`"
    );
    let other = data("invalid type: integer `1`, expected a string at line 1 column 2");
    let issue = WorkspaceIssue::from_config_error(&other, "locale-breeze.json");
    assert_eq!(
        issue.summary,
        "Invalid LocaleBreeze configuration: invalid type: integer `1`, expected a string"
    );
}

#[test]
fn publishes_and_clears_config_file_diagnostics() {
    let mut published = DiagnosticCache::new();
    let path = "/tmp/locale-breeze-diagnostic-test.json";
    let uri = "file:///tmp/locale-breeze-diagnostic-test.json";
    let source = ConfigError::Json(JsonFault {
        kind: JsonFaultKind::Data,
        message: "unknown field `unexpected`, expected one of `$schema` at line 1 column 13".into(),
        line: 1,
        column: 13,
    });

    let told = publish_config_diagnostic(uri, path, &source, &mut published).unwrap();
    assert_eq!(told.diagnostics.len(), 1);
    assert_eq!(told.diagnostics[0].code.as_deref(), Some("config_schema"));
    assert_eq!(
        told.diagnostics[0].message,
        "Unknown LocaleBreeze configuration field `unexpected`"
    );
    assert_eq!(told.diagnostics[0].range, Range { start: at(0, 12), end: at(0, 13) });
    assert!(publish_config_diagnostic(uri, path, &source, &mut published).is_none());

    let told = clear_uri_diagnostic(uri, &mut published).unwrap();
    assert!(told.diagnostics.is_empty());
    assert!(clear_uri_diagnostic(uri, &mut published).is_none());
}

#[test]
fn initialization_ignores_attached_content_roots_without_a_config() {
    let folder = |path: &str, has_config: bool| Folder { path: path.into(), has_config };
    let folders = [folder("/frontend/src", true), folder("/frontend/translations", false)];
    assert_eq!(initialization_roots(&folders, None), vec!["/frontend/src"]);

    let bare = [folder("/a", false), folder("/b", false)];
    assert_eq!(initialization_roots(&bare, None), vec!["/a", "/b"]);
    assert_eq!(initialization_roots(&bare, Some("/b/conf.json")), vec!["/b"]);
    assert_eq!(initialization_roots(&bare, Some("/c/conf.json")), vec!["/a"]);
    assert!(initialization_roots(&[], Some("/c/conf.json")).is_empty());
}

#[test]
fn applies_utf16_incremental_edits() {
    let text = "const x = '😀';".to_owned();
    let changed = apply_changes(
        text,
        &[TextChange {
            range: Some(Range { start: at(0, 11), end: at(0, 13) }),
            text: "ok".into(),
        }],
    );
    assert_eq!(changed, "const x = 'ok';");
}

#[test]
fn changes_follow_each_other() {
    let change = |range: Option<Range>, text: &str| TextChange { range, text: text.into() };
    let here = |character: u32| Some(Range { start: at(0, character), end: at(0, character) });
    let changes = [change(None, "ab"), change(here(1), "x"), change(here(3), "y")];
    assert_eq!(apply_changes("old".into(), &changes), "axby");
    let outside = [change(Some(Range { start: at(4, 0), end: at(4, 0) }), "x")];
    assert_eq!(apply_changes("old".into(), &outside), "old");
}

#[test]
fn prepares_a_format_preserving_nested_translation_edit() {
    let text = "{\r\n  \"Page\": {\r\n    \"old\": \"Old\"\r\n  }\r\n}\r\n";
    let workspace = load(
        config("translation.{locale}.json", "translate"),
        &[("/project/translation.en.json", text)],
    );
    let snapshot = workspace.snapshot();
    let edit = prepare_insertion(snapshot, None, &key("Page.Card.title"), "en", ".", "Hello").unwrap();
    assert_eq!(edit.uri, "file:///project/translation.en.json");
    assert_eq!(
        edit.new_text,
        ",\r\n    \"Card\": {\r\n      \"title\": \"Hello\"\r\n    }"
    );
    let after = apply_changes(
        text.into(),
        &[TextChange { range: Some(edit.range), text: edit.new_text }],
    );
    assert_eq!(
        after,
        "{\r\n  \"Page\": {\r\n    \"old\": \"Old\",\r\n    \"Card\": {\r\n      \"title\": \"Hello\"\r\n    }\r\n  }\r\n}\r\n"
    );
}

#[test]
fn a_new_key_is_written_as_json() {
    let workspace = load(
        config("translation.{locale}.json", "translate"),
        &[("/project/translation.en.json", r#"{"x":"X"}"#)],
    );
    let snapshot = workspace.snapshot();
    let edit = prepare_insertion(snapshot, None, &key("say \"it\""), "en", ".", "a\n\"b\"").unwrap();
    assert_eq!(edit.new_text, ",\"say \\\"it\\\"\": \"a\\n\\\"b\\\"\"");
    assert_eq!(edit.range, Range { start: at(0, 8), end: at(0, 8) });
}

#[test]
fn refuses_to_replace_a_leaf_parent() {
    let workspace = load(
        config("translation.{locale}.json", "translate"),
        &[("/project/translation.en.json", r#"{"Page":"Blocked"}"#)],
    );
    assert!(
        prepare_insertion(workspace.snapshot(), None, &key("Page.title"), "en", ".", "Title")
            .is_none()
    );
}

#[test]
fn scoped_interpolation_resolves_the_static_relative_scope() {
    let source = "const i18n=useScopedTranslation('Page.Steps'); i18n.t(`FieldNames.${key}`)";
    let workspace = load(
        config("translation.{locale}.json", "translate"),
        &[
            (
                "/project/translation.en.json",
                r#"{"Page":{"Steps":{"FieldNames":{"action":"Action"}}}}"#,
            ),
            ("/project/StepsComparer.tsx", source),
        ],
    );
    let character = source.find("FieldNames").unwrap() as u32 + 2;
    let resolved = key_at_position(
        workspace.snapshot(),
        "file:///project/StepsComparer.tsx",
        at(0, character),
        ".",
    )
    .unwrap();
    assert_eq!(resolved.key.as_str(), "Page.Steps.FieldNames");
}

#[test]
fn a_new_file_is_kept_under_the_uri_of_its_path() {
    let mut workspace = load(
        config("translation.{locale}.json", "i18next.t"),
        &[("/project/translation.en.json", r#"{"a":"A"}"#)],
    );
    workspace.update_text("FILE:///project/x/../app.ts", "i18next.t('a')".into(), Some(1));
    assert_eq!(
        workspace.snapshot().text("file:///project/app.ts"),
        Some("i18next.t('a')")
    );
    assert_eq!(workspace.snapshot().text("FILE:///project/x/../app.ts"), None);
    assert_eq!(workspace.snapshot().occurrences(&key("a")).len(), 1);
    workspace.update_text("untitled:Untitled-1", "i18next.t('a')".into(), Some(1));
    assert_eq!(
        workspace.snapshot().text("untitled:Untitled-1"),
        Some("i18next.t('a')")
    );
    assert_eq!(workspace.snapshot().occurrences(&key("a")).len(), 1);
}

#[test]
fn dictionaries_outside_of_the_workspace_are_scanned_too() {
    let inside = load(
        config("dict/translation.{locale}.json", "i18next.t"),
        &[("/project/dict/translation.en.json", r#"{"a":"A"}"#)],
    );
    assert_eq!(inside.scan_roots(), vec!["/project"]);
    assert!(inside.contains_path("/project/src/app.ts"));
    assert!(!inside.contains_path("/projects/app.ts"));
    let outside = load(
        config("../dict/translation.{locale}.json", "i18next.t"),
        &[("/dict/translation.en.json", r#"{"a":"A"}"#)],
    );
    assert_eq!(outside.scan_roots(), vec!["/project", "/dict"]);
    assert!(outside.contains_path("/dict/translation.fr.json"));
    assert!(!outside.contains_path("/dict/other.json"));
}

#[test]
fn a_text_that_is_no_source_adds_nothing() {
    let workspace = load(
        config("translation.{locale}.json", "i18next.t"),
        &[("/project/translation.en.json", r#"{"a":"A"}"#)],
    );
    let uri = "file:///project/readme.md";
    assert!(workspace
        .parse_text(uri, "/project/readme.md", "i18next.t('a')", None)
        .is_none());
    for name in ["app.js", "app.jsx", "app.ts", "app.tsx"] {
        let path = format!("/project/{name}");
        let file = workspace.parse_text(uri, &path, "i18next.t('a')", Some(2)).unwrap();
        assert_eq!(file.occurrences.len(), 1);
        assert_eq!(file.version, Some(2));
    }
}

#[test]
fn told_files_inside_a_directory_are_found_by_their_paths() {
    let mut cache = DiagnosticCache::new();
    let told = |uri: &str| FileDiagnostics { uri: uri.into(), diagnostics: vec![] };
    cache.tell(told("file:///project/a.ts"), Some("/project/a.ts".into()));
    cache.tell(told("file:///projects/b.ts"), Some("/projects/b.ts".into()));
    cache.tell(told("untitled:c"), None);
    assert_eq!(cache.inside("/project", Platform::Posix), ["file:///project/a.ts"]);
    cache.tell(told("file:///project/a.ts"), None);
    assert_eq!(cache.inside("/project", Platform::Posix), ["file:///project/a.ts"]);
    assert!(cache.inside("/other", Platform::Posix).is_empty());
}

#[test]
fn a_scan_keeps_each_file_once() {
    let files = [
        ("/project/translation.en.json", r#"{"known":"Known"}"#),
        ("/project/App.ts", "translate('a')"),
        ("/project/app.ts", "translate('b')"),
        ("/project/App.ts", "translate('c')"),
    ];
    let found: Vec<DiskFile> = files.iter().map(|(path, text)| disk(path, text)).collect();
    let scan = |platform: Platform| {
        let config = config("translation.{locale}.json", "translate");
        let preferences = WorkspacePreferences::default();
        WorkspaceIndex::load_on(platform, "/project".into(), config, preferences, &found, &[])
            .unwrap()
    };
    let posix = scan(Platform::Posix);
    assert_eq!(posix.snapshot().files().len(), 3);
    assert_eq!(posix.snapshot().text("file:///project/app.ts"), Some("translate('b')"));
    assert_eq!(posix.snapshot().text("file:///project/App.ts"), Some("translate('c')"));
    let windows = scan(Platform::Windows);
    assert_eq!(windows.snapshot().files().len(), 2);
    assert_eq!(windows.snapshot().text("file:///project/App.ts"), Some("translate('c')"));
}

#[test]
fn a_text_stays_under_the_uri_of_its_file() {
    let mut workspace = WorkspaceIndex::load_on(
        Platform::Windows,
        "/C:/project".into(),
        config("translation.{locale}.json", "translate"),
        WorkspacePreferences::default(),
        &[disk("/C:/project/translation.en.json", r#"{"my_key":"Value"}"#)],
        &[],
    )
    .unwrap();
    let mut published = DiagnosticCache::new();
    assert_eq!(diagnostic_notifications(&workspace, &mut published).len(), 1);
    let called = "file:///c%3A/project/TRANSLATION.en.json";
    workspace.update_text(called, r#"{"my_key":"Value"}"#.into(), Some(1));
    assert!(diagnostic_notifications(&workspace, &mut published).is_empty());
    assert_eq!(workspace.snapshot().files().len(), 1);
    assert_eq!(workspace.snapshot().dictionary_entries(&key("my_key")).len(), 1);
}
