use locale_breeze::arguments::parse_arguments;
use locale_breeze::config::ReadFault;
use locale_breeze::edit::TextChange;
use locale_breeze::names::list_bytes;
use locale_breeze::path::Platform;
use locale_breeze::position::{Position, Range};
use locale_breeze::protocol::{
    command_kind, notification_kind, request_kind, unsupported, CommandKind, LogLevel,
    NotificationKind, Outgoing, RequestKind,
};
use locale_breeze::server::{is_config_change, Event, Query, Reply, Server, Watching};
use locale_breeze::workspace::{DiskFile, Walked};
use locale_breeze::{
    Config, ConfigError, FullKeyFunctionConfig, ScopedFunctionConfig, WorkspaceIndex,
    WorkspacePreferences,
};

fn config(dictionaries: &str) -> Config {
    Config {
        schema: None,
        dictionaries: dictionaries.into(),
        default_locale: "en".into(),
        default_namespace: None,
        key_separator: ".".into(),
        scoped_functions: vec![ScopedFunctionConfig {
            function_name: "useScopedTranslation".into(),
            default_namespace: None,
            translation_methods: vec!["t".into()],
        }],
        full_key_functions: vec![FullKeyFunctionConfig {
            function_name: "translate".into(),
            default_namespace: None,
        }],
        translation_key_types: vec![],
        translation_key_props: vec![],
        ignored_scopes: vec![],
    }
}

fn disk(path: &str, text: &str) -> DiskFile {
    DiskFile {
        path: path.into(),
        uri: Some(format!("file://{path}")),
        text: Ok(text.into()),
    }
}

fn load(
    root: &str,
    config: Config,
    preferences: WorkspacePreferences,
    files: &[(&str, &str)],
) -> Result<WorkspaceIndex, ConfigError> {
    let found: Vec<DiskFile> = files.iter().map(|(path, text)| disk(path, text)).collect();
    let walk: Vec<Walked> =
        files.iter().map(|(path, text)| Walked::File(disk(path, text))).collect();
    WorkspaceIndex::load_with_preferences(root.into(), config, preferences, &found, &walk)
}

fn serve(config: Config, show_unused_keys: bool, files: &[(&str, &str)]) -> Server {
    let mut server = Server::new(None, show_unused_keys);
    assert_eq!(
        server.plan_root("/project").as_deref(),
        Some("/project/locale-breeze.json")
    );
    let loaded = load("/project", config, server.preferences(), files);
    server.add_workspace(loaded, "/project", &Watching::Registered, 7);
    server
}

fn at(line: u32, character: u32) -> Position {
    Position { line, character }
}

fn hover_at(server: &Server, uri: &str, line: u32, character: u32) -> String {
    match server.handle_request(uri, &Query::Hover { position: at(line, character) }) {
        Reply::Hover(text) => text,
        other => panic!("expected hover text, found {other:?}"),
    }
}

#[test]
fn hover_and_dictionary_navigation_recover_from_stale_index() {
    let dictionary_text = r#"{
              "known":"<strong>Default value</strong>",
              "scope":{"c":"C","a":"A","f":"F","b":"B","e":"E","d":"D"}
            }"#;
    let mut server = serve(
        config("translation.{locale}.json"),
        true,
        &[
            ("/project/translation.en.json", dictionary_text),
            (
                "/project/app.ts",
                "i18next.t('known');\ni18next.t('missing');\nuseScopedTranslation('scope');",
            ),
        ],
    );
    let uri = "file:///project/app.ts";
    assert_eq!(hover_at(&server, uri, 0, 13), "<strong>Default value</strong>");
    assert_eq!(
        hover_at(&server, uri, 1, 13),
        "Translation key `missing` does not exist."
    );
    assert_eq!(
        hover_at(&server, uri, 2, 23),
        "- `c`: C\n- `a`: A\n- `f`: F\n- `b`: B\n- `e`: E\n..."
    );

    let dictionary_uri = "file:///project/translation.en.json";
    let definition = Query::Definition { position: at(1, 16) };
    match server.handle_request(dictionary_uri, &definition) {
        Reply::Places(locations) => {
            assert_eq!(locations.len(), 1);
            assert_eq!(locations[0].uri, uri);
            assert_eq!(locations[0].range.start.line, 0);
        }
        other => panic!("expected definition locations, found {other:?}"),
    }

    let broken = Event::Opened { uri: dictionary_uri.into(), text: "{".into(), version: 99 };
    server.handle_notification(broken, 7);
    assert!(matches!(
        server.handle_request(dictionary_uri, &definition),
        Reply::Nothing
    ));
    server.refresh_document(dictionary_uri, dictionary_text.into());
    assert!(matches!(
        server.handle_request(dictionary_uri, &definition),
        Reply::Places(_)
    ));
}

#[test]
fn copy_key_command_returns_the_configured_full_dictionary_path() {
    let config = Config {
        default_namespace: Some("common".into()),
        key_separator: "/".into(),
        ..config("locales/{locale}/{namespace}.json")
    };
    let server = serve(
        config,
        true,
        &[(
            "/project/locales/en/common.json",
            r#"{"Page":{"Login":{"submit":"Sign in"}}}"#,
        )],
    );
    match server.handle_request(
        "file:///project/locales/en/common.json",
        &Query::ResolveKey { position: at(0, 20) },
    ) {
        Reply::Key(key) => assert_eq!(key, "common:Page/Login/submit"),
        other => panic!("expected a key, found {other:?}"),
    }
}

#[test]
fn ignored_scope_usages_warn_without_entering_normal_features() {
    let config = Config {
        ignored_scopes: vec!["Server_Errors".into()],
        ..config("translation.{locale}.json")
    };
    let source = "i18next.t('Server_Errors.Invalid');\nconst i18n=useScopedTranslation('Server_Errors');\ni18n.t('Invalid');";
    let mut server = Server::new(None, false);
    server.plan_root("/project");
    let loaded = load(
        "/project",
        config,
        server.preferences(),
        &[
            (
                "/project/translation.en.json",
                r#"{"Page":{"unused":"Unused"},"Server_Errors":{"Invalid":"Invalid"}}"#,
            ),
            ("/project/app.ts", source),
        ],
    );
    let sent = server.add_workspace(loaded, "/project", &Watching::Registered, 7);
    let told = sent
        .iter()
        .filter_map(|message| match message {
            Outgoing::Diagnostics(file) => Some(file),
            _ => None,
        })
        .collect::<Vec<_>>();
    assert_eq!(told.len(), 1);
    assert_eq!(told[0].diagnostics.len(), 2);
    assert!(told[0].diagnostics.iter().all(|diagnostic| {
        diagnostic.message.contains("belongs to an ignored scope")
            && diagnostic.severity == locale_breeze::diagnostics::Severity::Warning
    }));

    let uri = "file:///project/app.ts";
    let position = at(0, source.find("Server_Errors").unwrap() as u32 + 2);
    assert!(matches!(
        server.handle_request(uri, &Query::Definition { position }),
        Reply::Nothing
    ));
    assert!(matches!(
        server.handle_request(uri, &Query::Hover { position }),
        Reply::Nothing
    ));
}

#[test]
fn a_loaded_workspace_is_announced() {
    let mut server = Server::new(None, true);
    server.plan_root("/project");
    let loaded = load(
        "/project",
        config("translation.{locale}.json"),
        server.preferences(),
        &[("/project/translation.en.json", r#"{"k":"V"}"#)],
    );
    let sent = server.add_workspace(loaded, "/project", &Watching::Failed, 7);
    match &sent[0] {
        Outgoing::Issue(issue) => assert_eq!((issue.code, issue.active), ("clear", false)),
        other => panic!("unexpected message {other:?}"),
    }
    match &sent[1] {
        Outgoing::Issue(issue) => assert_eq!((issue.code, issue.active), ("watcher_failed", true)),
        other => panic!("unexpected message {other:?}"),
    }
    match &sent[2] {
        Outgoing::Log(level, text) => {
            assert_eq!(*level, LogLevel::Info);
            assert_eq!(text, "LocaleBreeze server pid=7 indexed /project");
        }
        other => panic!("unexpected message {other:?}"),
    }
    assert!(matches!(&sent[3], Outgoing::Log(LogLevel::Info, _)));
    assert!(matches!(&sent[4], Outgoing::Diagnostics(_)));
    match &sent[5] {
        Outgoing::Status(status) => {
            assert_eq!(status.config_path, "/project/locale-breeze.json");
            assert_eq!(status.unused_key_count, 1);
        }
        other => panic!("unexpected message {other:?}"),
    }
    assert_eq!(sent.len(), 6);
    assert_eq!(server.plan_root("/project/"), None);
}

#[test]
fn a_workspace_that_cannot_be_loaded_is_explained() {
    let mut server = Server::new(None, true);
    let config_path = server.plan_root("/project").unwrap();
    let missing = || {
        Err(ConfigError::Read(
            config_path.clone(),
            ReadFault { message: "not found".into(), missing: true },
        ))
    };
    let unavailable = Watching::Unavailable("no more watches".into());
    let sent = server.add_workspace(missing(), "/project", &unavailable, 7);
    assert_eq!(sent.len(), 3);
    match &sent[0] {
        Outgoing::Diagnostics(file) => {
            assert_eq!(file.uri, "file:///project/locale-breeze.json");
            assert_eq!(
                file.diagnostics[0].message,
                "LocaleBreeze configuration was not found"
            );
        }
        other => panic!("unexpected message {other:?}"),
    }
    match &sent[1] {
        Outgoing::Issue(issue) => assert_eq!(issue.code, "config_missing"),
        other => panic!("unexpected message {other:?}"),
    }
    match &sent[2] {
        Outgoing::Log(level, text) => {
            assert_eq!(*level, LogLevel::Error);
            assert_eq!(
                text,
                "LocaleBreeze disabled for /project: failed to read /project/locale-breeze.json: not found"
            );
        }
        other => panic!("unexpected message {other:?}"),
    }
    assert!(server.workspaces().is_empty());
    assert_eq!(server.add_workspace(missing(), "/project", &unavailable, 7).len(), 2);

    let loaded = load(
        "/project",
        config("translation.{locale}.json"),
        server.preferences(),
        &[("/project/translation.en.json", r#"{"k":"V"}"#)],
    );
    let sent = server.add_workspace(loaded, "/project", &unavailable, 7);
    assert!(matches!(
        &sent[1],
        Outgoing::Diagnostics(file)
            if file.uri == "file:///project/locale-breeze.json" && file.diagnostics.is_empty()
    ));
    assert!(matches!(
        &sent[2],
        Outgoing::Log(LogLevel::Warning, text)
            if text == "LocaleBreeze could not watch /project: no more watches"
    ));
}

#[test]
fn the_deepest_workspace_answers() {
    let mut server = Server::new(Some("/conf/locale-breeze.json".into()), true);
    for root in ["/project", "/project/packages/app", "/project/packages"] {
        assert_eq!(
            server.plan_root(root).as_deref(),
            Some("/conf/locale-breeze.json")
        );
        let dictionary = format!("{root}/translation.en.json");
        let loaded = load(
            root,
            config("translation.{locale}.json"),
            server.preferences(),
            &[(dictionary.as_str(), r#"{"k":"V"}"#)],
        );
        server.add_workspace(loaded, root, &Watching::Registered, 7);
    }
    let root = |path: &str| server.workspace_for_path(path).map(|found| found.root().to_owned());
    assert_eq!(
        root("/project/packages/app/src/a.ts").as_deref(),
        Some("/project/packages/app")
    );
    assert_eq!(root("/project/packages/b.ts").as_deref(), Some("/project/packages"));
    assert_eq!(root("/project/c.ts").as_deref(), Some("/project"));
    assert_eq!(root("/elsewhere/d.ts"), None);
}

#[test]
fn edits_are_followed() {
    let mut server = serve(
        config("translation.{locale}.json"),
        true,
        &[
            ("/project/translation.en.json", r#"{"k":"V"}"#),
            ("/project/app.ts", "i18next.t('x')"),
        ],
    );
    let uri = "file:///project/app.ts";
    let text = |server: &Server| server.workspaces()[0].snapshot().text(uri).unwrap().to_owned();
    let changed = Event::Changed {
        uri: uri.into(),
        changes: vec![TextChange {
            range: Some(Range { start: at(0, 11), end: at(0, 12) }),
            text: "k".into(),
        }],
        version: 2,
    };
    let reaction = server.handle_notification(changed, 7);
    assert_eq!(text(&server), "i18next.t('k')");
    assert!(!reaction.reload && reaction.load.is_empty());
    assert!(reaction.sent.iter().any(|message| matches!(
        message,
        Outgoing::Diagnostics(file) if file.diagnostics.is_empty()
    )));
    let saved = Event::Saved { uri: uri.into(), text: Some("i18next.t('s')".into()) };
    server.handle_notification(saved, 7);
    assert_eq!(text(&server), "i18next.t('s')");
    let silent = Event::Saved { uri: uri.into(), text: None };
    assert!(server.handle_notification(silent, 7).sent.is_empty());
    let closed = Event::Closed {
        uri: uri.into(),
        file: Some(disk("/project/app.ts", "i18next.t('x')")),
    };
    server.handle_notification(closed, 7);
    assert_eq!(text(&server), "i18next.t('x')");
    let foreign = Event::Opened {
        uri: "file:///elsewhere/app.ts".into(),
        text: "i18next.t('k')".into(),
        version: 1,
    };
    assert!(server.handle_notification(foreign, 7).sent.is_empty());
}

#[test]
fn changed_files_are_read_again() {
    let path = "/project/translation.en.json";
    let mut server = serve(config("translation.{locale}.json"), false, &[(path, r#"{"k":"V"}"#)]);
    let sent = server.refresh_files("/project", &[disk(path, "{")], 7);
    assert!(matches!(
        &sent[0],
        Outgoing::Issue(issue) if issue.code == "dictionary_invalid" && issue.active
    ));
    let sent = server.refresh_files("/project/", &[disk(path, r#"{"k":"V"}"#)], 7);
    assert!(matches!(
        &sent[0],
        Outgoing::Issue(issue) if issue.code == "dictionary_invalid" && !issue.active
    ));
    assert!(matches!(sent.last(), Some(Outgoing::Status(_))));
    assert!(server.refresh_files("/elsewhere", &[disk(path, "{")], 7).is_empty());
    assert!(server.has_room(1));
    assert!(!server.has_room(u64::MAX));
}

#[test]
fn folders_come_and_go() {
    let mut server = serve(
        config("translation.{locale}.json"),
        true,
        &[("/project/translation.en.json", r#"{"k":"V"}"#)],
    );
    let event = Event::FoldersChanged {
        removed: vec!["file:///project".into()],
        added: vec!["file:///other".into()],
    };
    let reaction = server.handle_notification(event, 7);
    assert_eq!(reaction.load, vec!["file:///other"]);
    assert!(!reaction.reload);
    assert_eq!(reaction.sent.len(), 1);
    assert!(matches!(
        &reaction.sent[0],
        Outgoing::Diagnostics(file) if file.diagnostics.is_empty()
    ));
    assert!(server.workspaces().is_empty());
    let reaction = server.handle_notification(Event::ConfigurationChanged, 7);
    assert!(reaction.reload && reaction.load.is_empty());
}

#[test]
fn a_changed_configuration_loads_everything_again() {
    let mut server = serve(
        config("translation.{locale}.json"),
        true,
        &[("/project/translation.en.json", r#"{"k":"V"}"#)],
    );
    let other = Event::FilesChanged { uris: vec!["file:///project/package.json".into()] };
    assert!(!server.handle_notification(other, 7).reload);
    assert_eq!(server.workspaces().len(), 1);
    let event = Event::FilesChanged { uris: vec!["file:///project/locale-breeze.json".into()] };
    let reaction = server.handle_notification(event, 7);
    assert!(reaction.reload);
    assert_eq!(reaction.load, vec!["file:///project"]);
    assert!(server.workspaces().is_empty());
    assert!(is_config_change(&["file:///a/locale-breeze.json".into()]));
    assert!(!is_config_change(&["file:///locale-breeze.json/a".into(), "no uri".into()]));
}

#[test]
fn a_missing_key_can_be_added() {
    let mut server = serve(
        config("translation.{locale}.json"),
        true,
        &[
            ("/project/translation.en.json", r#"{"Page":{"old":"Old"}}"#),
            ("/project/app.ts", "i18next.t('Page.new'); i18next.t('Page.old')"),
        ],
    );
    let uri = "file:///project/app.ts";
    let keys = match server.handle_request(uri, &Query::DocumentKeys) {
        Reply::Keys(result) => result,
        other => panic!("expected keys, found {other:?}"),
    };
    let found = keys
        .keys
        .iter()
        .map(|info| (info.key.as_str(), info.declaration_exists, info.can_add))
        .collect::<Vec<_>>();
    assert_eq!(found, [("Page.new", false, true), ("Page.old", true, false)]);
    let add = |version: Option<i32>| Query::PrepareAddKey {
        position: at(0, 13),
        value: "New".into(),
        version,
    };
    match server.handle_request(uri, &add(None)) {
        Reply::Edit(edit) => {
            assert_eq!(edit.uri, "file:///project/translation.en.json");
            assert_eq!(edit.new_text, ",\"new\": \"New\"");
        }
        other => panic!("expected an edit, found {other:?}"),
    }
    assert!(matches!(server.handle_request(uri, &add(Some(4))), Reply::Nothing));
    let opened = Event::Opened {
        uri: uri.into(),
        text: "i18next.t('Page.new'); i18next.t('Page.old')".into(),
        version: 4,
    };
    server.handle_notification(opened, 7);
    assert!(matches!(server.handle_request(uri, &add(Some(4))), Reply::Edit(_)));
}

#[test]
fn references_lead_to_uses_and_declarations() {
    let server = serve(
        config("translation.{locale}.json"),
        true,
        &[
            ("/project/translation.en.json", r#"{"Page":{"old":"Old"}}"#),
            ("/project/translation.de.json", r#"{"Page":{"old":"Alt"}}"#),
            ("/project/app.ts", "i18next.t('Page.old')"),
        ],
    );
    let places = |include_declaration: bool| {
        let query = Query::References { position: at(0, 17), include_declaration };
        match server.handle_request("file:///project/app.ts", &query) {
            Reply::Places(places) => places,
            other => panic!("expected places, found {other:?}"),
        }
    };
    assert_eq!(places(false).len(), 1);
    assert_eq!(places(true).len(), 3);
    assert_eq!(places(true)[0].uri, places(false)[0].uri);
    assert_eq!(places(true)[0].range, places(false)[0].range);
    let query = Query::Definition { position: at(0, 17) };
    match server.handle_request("file:///project/app.ts", &query) {
        Reply::Places(places) => {
            assert_eq!(places.len(), 1);
            assert_eq!(places[0].uri, "file:///project/translation.en.json");
        }
        other => panic!("expected places, found {other:?}"),
    }
}

#[test]
fn completions_are_listed_best_first() {
    let server = serve(
        config("translation.{locale}.json"),
        true,
        &[
            ("/project/translation.en.json", r#"{"Page":{"title":"Title"}}"#),
            ("/project/app.ts", "translate('tit')"),
        ],
    );
    let query = Query::Completion { position: at(0, 14) };
    match server.handle_request("file:///project/app.ts", &query) {
        Reply::Completions(list) => {
            assert!(!list.is_incomplete);
            assert_eq!(list.items.len(), 1);
            assert_eq!(list.items[0].label, "Page.title — Title");
            assert_eq!(list.items[0].insert_text, "Page.title");
            assert_eq!(list.items[0].sort_text, "00000-02010");
        }
        other => panic!("expected completions, found {other:?}"),
    }
}

#[test]
fn messages_are_told_apart_by_their_names() {
    assert_eq!(request_kind("textDocument/completion"), RequestKind::Completion);
    assert_eq!(request_kind("textDocument/definition"), RequestKind::Definition);
    assert_eq!(request_kind("textDocument/hover"), RequestKind::Hover);
    assert_eq!(request_kind("textDocument/references"), RequestKind::References);
    assert_eq!(request_kind("workspace/executeCommand"), RequestKind::Command);
    assert_eq!(request_kind("textDocument/rename"), RequestKind::Unknown);
    assert_eq!(
        unsupported("textDocument/rename"),
        "unsupported request: textDocument/rename"
    );
    assert_eq!(command_kind("localeBreeze.resolveFullKey"), CommandKind::ResolveKey);
    assert_eq!(command_kind("localeBreeze.refreshDocument"), CommandKind::RefreshDocument);
    assert_eq!(command_kind("localeBreeze.documentKeys"), CommandKind::DocumentKeys);
    assert_eq!(command_kind("localeBreeze.prepareAddKey"), CommandKind::PrepareAddKey);
    assert_eq!(command_kind("other"), CommandKind::Unknown);
    assert_eq!(notification_kind("textDocument/didOpen"), NotificationKind::Opened);
    assert_eq!(notification_kind("textDocument/didChange"), NotificationKind::Changed);
    assert_eq!(notification_kind("textDocument/didClose"), NotificationKind::Closed);
    assert_eq!(notification_kind("textDocument/didSave"), NotificationKind::Saved);
    assert_eq!(
        notification_kind("workspace/didChangeWorkspaceFolders"),
        NotificationKind::FoldersChanged
    );
    assert_eq!(
        notification_kind("workspace/didChangeConfiguration"),
        NotificationKind::ConfigurationChanged
    );
    assert_eq!(
        notification_kind("workspace/didChangeWatchedFiles"),
        NotificationKind::FilesChanged
    );
    assert_eq!(notification_kind("$/setTrace"), NotificationKind::Unknown);
}

#[test]
fn arguments_choose_how_the_server_runs() {
    let parse = |args: &[&str]| {
        let args: Vec<String> = args.iter().map(|arg| (*arg).into()).collect();
        parse_arguments(&args)
            .map(|options| (options.config, options.show_unused_keys))
    };
    assert_eq!(parse(&["--stdio"]), Ok((None, true)));
    assert_eq!(parse(&["lsp", "--stdio"]), Ok((None, true)));
    assert_eq!(
        parse(&["lsp", "--stdio", "--config", "a.json", "--unused-keys", "false"]),
        Ok((Some("a.json".into()), false))
    );
    assert_eq!(parse(&["lsp", "--stdio", "--config"]), Ok((None, true)));
    assert_eq!(
        parse(&["lsp", "--stdio", "--unused-keys", "maybe"]),
        Err("--unused-keys requires true or false".into())
    );
    assert_eq!(
        parse(&["lsp", "--stdio", "--unused-keys"]),
        Err("--unused-keys requires true or false".into())
    );
    assert_eq!(
        parse(&["lsp", "--stdio", "--verbose"]),
        Err("unknown argument: --verbose".into())
    );
    let usage = "usage: locale-breeze lsp --stdio [--config <path>] [--unused-keys <true|false>]";
    assert_eq!(parse(&[]), Err(usage.into()));
    assert_eq!(parse(&["--stdio", "--config"]), Err(usage.into()));
}

#[test]
fn a_document_is_answered_whose_path_is_no_text() {
    let mut server = serve(
        config("translation.{locale}.json"),
        true,
        &[("/project/translation.en.json", r#"{"known":"Known"}"#)],
    );
    let uri = "file:///project/%FF.ts";
    let opened = Event::Opened {
        uri: uri.into(),
        text: "i18next.t('known')".into(),
        version: 1,
    };
    server.handle_notification(opened, 7);
    assert_eq!(server.workspaces()[0].snapshot().text(uri), Some("i18next.t('known')"));
    assert_eq!(hover_at(&server, uri, 0, 13), "Known");
}

#[test]
fn an_added_folder_is_planned_by_its_path() {
    let mut server = Server::new(None, true);
    let plan = server.plan_workspace("file:///my%20project").expect("a plan");
    assert_eq!(plan.root, "/my project");
    assert_eq!(plan.config_path, "/my project/locale-breeze.json");
    assert!(server.plan_workspace("untitled:project").is_none());
    let file = DiskFile::new("/my project/app.ts".into(), Ok(String::new()));
    assert_eq!(file.uri.as_deref(), Some("file:///my%20project/app.ts"));
}

#[test]
fn a_document_is_found_whatever_its_drive_is_called() {
    let root = "/C:/project";
    let mut server = Server::new_on(Platform::Windows, None, true);
    let dictionary = disk("/C:/project/translation.en.json", r#"{"known":"Known"}"#);
    let source = disk("/C:/project/App.ts", "i18next.t('x')");
    let loaded = WorkspaceIndex::load_on(
        Platform::Windows,
        root.into(),
        config("translation.{locale}.json"),
        server.preferences(),
        &[dictionary, source],
        &[],
    );
    server.add_workspace(loaded, root, &Watching::Registered, 7);
    let opened = Event::Opened {
        uri: "file:///C%3A/project/App.ts".into(),
        text: "i18next.t('known')".into(),
        version: 1,
    };
    server.handle_notification(opened, 7);
    let snapshot = server.workspaces()[0].snapshot();
    assert_eq!(snapshot.files().len(), 2);
    assert_eq!(snapshot.text("file:///C:/project/App.ts"), Some("i18next.t('known')"));
    assert_eq!(hover_at(&server, "file:///C%3A/project/App.ts", 0, 13), "Known");
}

#[test]
fn a_root_whose_path_is_no_text_has_its_uri() {
    let mut server = Server::new(None, true);
    let plan = server.plan_workspace("file:///%FF").expect("a plan");
    assert_eq!(list_bytes(&plan.root), b"/\xff");
    assert!(server.plan_workspace("file:///%FE").is_some());
    let reaction = server.handle_notification(Event::ConfigurationChanged, 7);
    assert_eq!(reaction.load, ["file:///%FF", "file:///%FE"]);
    let file = DiskFile::new(plan.config_path, Ok(String::new()));
    assert_eq!(file.uri.as_deref(), Some("file:///%FF/locale-breeze.json"));
}
