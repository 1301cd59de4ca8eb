use locale_breeze::completion::match_score;
use locale_breeze::path::Platform;
use locale_breeze::urls::normalized_uri;
use locale_breeze::{
    analyze_source, parse_dictionary, CanonicalKey, CompletionContext, Config,
    FileContribution, FullKeyFunctionConfig, IndexSnapshot, OccurrenceKind, ScopedFunctionConfig,
};

fn dictionary(uri: &str, locale: &str, text: &str) -> FileContribution {
    FileContribution {
        uri: uri.into(),
        text: text.into(),
        version: None,
        dictionaries: parse_dictionary(uri, locale, text, ".").unwrap(),
        occurrences: vec![],
        ignored_occurrences: vec![],
        bindings: vec![],
    }
}

fn source(uri: &str, text: &str) -> FileContribution {
    let (occurrences, bindings) = analyze_source(
        uri,
        text,
        ".",
        &["useScopedTranslation".into()],
        &["t".into()],
        &["i18next.t".into()],
        &[],
        &[],
    );
    FileContribution {
        uri: uri.into(),
        text: text.into(),
        version: None,
        dictionaries: vec![],
        occurrences,
        ignored_occurrences: vec![],
        bindings,
    }
}

fn key(text: &str) -> CanonicalKey {
    CanonicalKey::new(text, ".").unwrap()
}

#[test]
fn searches_relative_keys_but_not_values() {
    let snapshot = IndexSnapshot::rebuild(
        1,
        vec![dictionary(
            "file:///translation.en.json",
            "en",
            r#"{"Page":{"Login":{"my_key":"My value"}}}"#,
        )],
    );
    let scope = key("Page.Login");
    let (found, _) = snapshot.completions(
        &CompletionContext::ScopedKey { scope: scope.clone(), query: "my_k".into() },
        "en",
        ".",
        20,
    );
    assert_eq!(found[0].key, "my_key");

    let (found, _) = snapshot.completions(
        &CompletionContext::ScopedKey { scope, query: "My value".into() },
        "en",
        ".",
        20,
    );
    assert!(found.is_empty());
}

#[test]
fn reports_only_unreferenced_default_locale_leaves_as_unused() {
    let snapshot = IndexSnapshot::rebuild(
        1,
        vec![
            dictionary(
                "file:///translation.en.json",
                "en",
                r#"{"used":"Used","unused":"Unused"}"#,
            ),
            source("file:///app.ts", "i18next.t('used')"),
        ],
    );
    let leaves = snapshot
        .default_locale_leaf_entries("en")
        .iter()
        .map(|entry| (entry.key.as_str(), snapshot.is_leaf_key_used(&entry.key)))
        .collect::<Vec<_>>();
    assert_eq!(leaves, vec![("unused", false), ("used", true)]);
}

fn snapshot_with_leaf_count(count: usize) -> IndexSnapshot {
    let children = (0..count)
        .map(|index| format!(r#""Child{index}":{{"leaf":"value"}}"#))
        .collect::<Vec<_>>()
        .join(",");
    let text = format!(r#"{{"Scope":{{{children}}}}}"#);
    IndexSnapshot::rebuild(
        1,
        vec![
            dictionary("file:///translation.en.json", "en", &text),
            source(
                "file:///app.ts",
                "i18next.t('Scope.Child0.leaf');useScopedTranslation('Scope.Child0')",
            ),
        ],
    )
}

#[test]
fn scope_references_are_recursive_only_for_small_scopes() {
    let scope = key("Scope");
    let small = snapshot_with_leaf_count(2);
    assert_eq!(small.scope_occurrences(&scope, ".", 32).len(), 2);

    let large = snapshot_with_leaf_count(33);
    let occurrences = large.scope_occurrences(&scope, ".", 32);
    assert_eq!(occurrences.len(), 1);
    assert_eq!(occurrences[0].kind, OccurrenceKind::ScopeDeclaration);
    assert_eq!(occurrences[0].key.as_str(), "Scope.Child0");
}

#[test]
fn dynamic_scope_marks_every_descendant_used_and_referenced() {
    let snapshot = IndexSnapshot::rebuild(
        1,
        vec![
            dictionary(
                "file:///translation.en.json",
                "en",
                r#"{"SomeScope":{"child":{"leaf":"Value"}}}"#,
            ),
            source("file:///app.ts", "i18next.t(`SomeScope.${value}`)"),
        ],
    );
    let leaf = key("SomeScope.child.leaf");
    assert!(snapshot.is_leaf_key_used_with_separator(&leaf, "."));
    let references = snapshot.dynamic_scope_occurrences(&leaf, ".");
    assert_eq!(references.len(), 1);
    assert_eq!(references[0].key.as_str(), "SomeScope");
}

#[test]
fn detects_completion_in_empty_literal() {
    let uri = "file:///app.tsx";
    let text = "const i18n=useScopedTranslation('Page.Login'); i18n.t('')";
    let snapshot = IndexSnapshot::rebuild(1, vec![source(uri, text)]);
    let config = Config {
        schema: None,
        dictionaries: "translation.{locale}.json".into(),
        default_locale: "en".into(),
        default_namespace: None,
        key_separator: ".".into(),
        scoped_functions: vec![ScopedFunctionConfig {
            function_name: "useScopedTranslation".into(),
            default_namespace: None,
            translation_methods: vec!["t".into()],
        }],
        full_key_functions: vec![FullKeyFunctionConfig {
            function_name: "i18next.t".into(),
            default_namespace: None,
        }],
        translation_key_types: vec![],
        translation_key_props: vec![],
        ignored_scopes: vec![],
    };
    assert!(matches!(
        snapshot.completion_context_at(uri, text.len() - 1, &config),
        Some(CompletionContext::ScopedKey { .. })
    ));
    assert!(matches!(
        snapshot.completion_context_at(uri, "const i18n=useScopedTranslation('Pa".len(), &config),
        Some(CompletionContext::Scope { query }) if query == "Pa"
    ));
    assert!(snapshot.completion_context_at(uri, 5, &config).is_none());
    assert!(snapshot.completion_context_at("file:///other.ts", 0, &config).is_none());
}

#[test]
fn matches_are_scored_by_how_they_match() {
    assert_eq!(match_score("", "page.title", "page.title"), Some(1));
    assert_eq!(match_score("title", "page.title", "title"), Some(10_000));
    assert_eq!(match_score("ti", "page.title", "title"), Some(9_000 - 5));
    assert_eq!(match_score("ti", "page.title", "page.title"), Some(8_000 - 10));
    assert_eq!(match_score("itl", "page.title", "page.title"), Some(7_000 - 6 - 1));
    assert_eq!(match_score("pgt", "page.title", "page.title"), Some(5_000 - 6));
    assert_eq!(match_score("tp", "page.title", "page.title"), None);
}

#[test]
fn completions_come_ranked_and_cut_off() {
    let snapshot = IndexSnapshot::rebuild(
        1,
        vec![
            dictionary(
                "file:///translation.en.json",
                "en",
                r#"{"title":"T","subtitle":"S","titles":{"a":"A"}}"#,
            ),
            dictionary("file:///translation.de.json", "de", r#"{"title":"Titel"}"#),
        ],
    );
    let context = CompletionContext::FullKey { query: "TITLE".into() };
    let (all, incomplete) = snapshot.completions(&context, "en", ".", 10);
    let keys = all.iter().map(|found| found.key.as_str()).collect::<Vec<_>>();
    assert_eq!(keys, ["title", "titles.a", "subtitle"]);
    assert_eq!(all[0].detail.as_deref(), Some("T"));
    assert!(!incomplete);
    let (few, incomplete) = snapshot.completions(&context, "en", ".", 1);
    assert_eq!(few.len(), 1);
    assert!(incomplete);
    let scopes = CompletionContext::Scope { query: "ti".into() };
    let (found, _) = snapshot.completions(&scopes, "en", ".", 10);
    assert_eq!(found.len(), 1);
    assert_eq!(found[0].canonical_key, "titles");
}

#[test]
fn a_later_file_takes_the_place_of_an_earlier_one() {
    let uri = "file:///translation.en.json";
    let snapshot = IndexSnapshot::rebuild(
        7,
        vec![
            dictionary(uri, "en", r#"{"old":"Old"}"#),
            dictionary(uri, "en", r#"{"new":"New"}"#),
        ],
    );
    assert_eq!(snapshot.generation(), 7);
    assert_eq!(snapshot.files().len(), 1);
    assert!(snapshot.dictionary_entries(&key("old")).is_empty());
    assert_eq!(snapshot.dictionary_entries(&key("new")).len(), 1);
    assert_eq!(snapshot.text(uri), Some(r#"{"new":"New"}"#));
    assert_eq!(snapshot.version(uri), None);
}

#[test]
fn a_cursor_finds_what_it_touches() {
    let text = r#"{"Page":{"title":"Title"}}"#;
    let uri = "file:///translation.en.json";
    let app = "i18next.t('Page.title')";
    let snapshot = IndexSnapshot::rebuild(
        1,
        vec![dictionary(uri, "en", text), source("file:///app.ts", app)],
    );
    let at = text.find("title").unwrap();
    assert_eq!(snapshot.dictionary_at(uri, at).unwrap().key.as_str(), "Page.title");
    assert!(snapshot.dictionary_at(uri, 0).is_none());
    let at = app.find("Page").unwrap();
    assert_eq!(
        snapshot.occurrence_at("file:///app.ts", at).unwrap().key.as_str(),
        "Page.title"
    );
    assert!(snapshot.occurrence_at("file:///app.ts", 0).is_none());
}

#[test]
fn declaring_a_scope_uses_no_key() {
    let snapshot = IndexSnapshot::rebuild(
        1,
        vec![
            dictionary("file:///translation.en.json", "en", r#"{"Page":"Page"}"#),
            source("file:///app.ts", "useScopedTranslation('Page')"),
        ],
    );
    assert!(!snapshot.is_leaf_key_used(&key("Page")));
}

#[test]
fn file_lookup_ignores_windows_uri_casing() {
    let indexed_uri = "file:///C:/Project/App.ts";
    let requested_uri = "file:///c%3A/project/app.ts";
    let contribution = FileContribution {
        uri: indexed_uri.into(),
        text: "const value = 1;".into(),
        version: None,
        dictionaries: vec![],
        occurrences: vec![],
        ignored_occurrences: vec![],
        bindings: vec![],
    };
    let snapshot = IndexSnapshot::rebuild(1, vec![contribution]);
    let held = snapshot.held_uri(requested_uri, Platform::Windows);
    assert_eq!(snapshot.text(&held), Some("const value = 1;"));
    assert_eq!(
        normalized_uri(indexed_uri, Platform::Windows),
        normalized_uri(requested_uri, Platform::Windows)
    );
    assert_eq!(snapshot.held_uri(requested_uri, Platform::Posix), requested_uri);
    assert_eq!(snapshot.held_uri("file:///c:/other", Platform::Windows), "file:///c:/other");
    assert_eq!(normalized_uri("untitled:A", Platform::Windows), "untitled:A");
}
