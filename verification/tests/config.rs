use locale_breeze::config::ReadFault;
use locale_breeze::json::{JsonFault, JsonFaultKind};
use locale_breeze::{
    Config, ConfigError, DictionaryIdentity, DictionaryPattern, FullKeyFunctionConfig,
    ScopedFunctionConfig,
};

fn scoped(name: &str, namespace: Option<&str>, methods: &[&str]) -> ScopedFunctionConfig {
    ScopedFunctionConfig {
        function_name: name.into(),
        default_namespace: namespace.map(String::from),
        translation_methods: methods.iter().map(|method| (*method).into()).collect(),
    }
}

fn full_key(name: &str, namespace: Option<&str>) -> FullKeyFunctionConfig {
    FullKeyFunctionConfig {
        function_name: name.into(),
        default_namespace: namespace.map(String::from),
    }
}

fn config(ignored_scopes: &[&str], separator: &str) -> Config {
    Config {
        schema: None,
        dictionaries: "translation.{locale}.json".into(),
        default_locale: "en".into(),
        default_namespace: None,
        key_separator: separator.into(),
        scoped_functions: vec![scoped("useScopedTranslation", None, &["t"])],
        full_key_functions: vec![full_key("translate", None)],
        translation_key_types: vec![],
        translation_key_props: vec![],
        ignored_scopes: ignored_scopes.iter().map(|scope| (*scope).into()).collect(),
    }
}

#[test]
fn validates_and_deduplicates_ignored_scopes() {
    let config = config(&["Server_Errors", "Server_Errors"], ".");
    config.validate().unwrap();
    assert_eq!(config.ignored_scope_set().len(), 1);
}

#[test]
fn rejects_invalid_ignored_scopes_for_the_configured_separator() {
    let config = config(&["Backend////Errors"], "//");
    assert!(matches!(
        config.validate(),
        Err(ConfigError::InvalidIgnoredScope(value)) if value == "Backend////Errors"
    ));
}

#[test]
fn validates_function_entries_and_rejects_duplicate_names() {
    let config = Config {
        dictionaries: "locales/{locale}/{namespace}.json".into(),
        default_namespace: Some("common".into()),
        scoped_functions: vec![
            scoped("useA", None, &["t"]),
            scoped("useA", Some("home"), &["key"]),
        ],
        full_key_functions: vec![full_key("translate", Some("home"))],
        ..config(&[], ".")
    };
    assert!(matches!(
        config.validate(),
        Err(ConfigError::DuplicateFunction { field: "scopedFunctions", name }) if name == "useA"
    ));
}

#[test]
fn rejects_empty_scoped_translation_methods() {
    let config = Config {
        scoped_functions: vec![scoped("useScopedTranslation", None, &[])],
        ..config(&[], ".")
    };
    assert!(matches!(
        config.validate(),
        Err(ConfigError::Empty("scopedFunctions.translationMethods"))
    ));
}

#[test]
fn rejects_absolute_dictionary_patterns() {
    for pattern in [
        "/translations/translation.{locale}.json",
        r"C:\translations\translation.{locale}.json",
        r"\\server\share\translation.{locale}.json",
    ] {
        assert!(matches!(
            DictionaryPattern::new(pattern),
            Err(ConfigError::AbsoluteDictionaryPattern)
        ));
    }
}

#[test]
fn matches_a_dictionary_above_the_workspace() {
    let root = "/project/packages/app";
    let pattern = DictionaryPattern::new("../../translations/translation.{locale}.json").unwrap();
    assert_eq!(
        pattern.locale_for(root, "/project/translations/translation.en.json"),
        Some("en".to_owned())
    );
    assert_eq!(pattern.search_root(root), "/project/translations");
}

#[test]
fn extracts_locale_and_namespace_in_either_order() {
    let root = "/project";
    let pattern = DictionaryPattern::new("locales/{locale}/{namespace}.json").unwrap();
    assert_eq!(
        pattern.identity_for(root, "/project/locales/en/common.json"),
        Some(DictionaryIdentity {
            locale: "en".into(),
            namespace: Some("common".into())
        })
    );
    assert!(pattern.has_namespace());

    let turned = DictionaryPattern::new("locales/{namespace}/{locale}.json").unwrap();
    assert_eq!(
        turned.identity_for(root, "/project/locales/common/en.json"),
        Some(DictionaryIdentity {
            locale: "en".into(),
            namespace: Some("common".into())
        })
    );
}

#[test]
fn rejects_duplicate_namespace_tokens() {
    assert!(matches!(
        DictionaryPattern::new("{namespace}/{locale}/{namespace}.json"),
        Err(ConfigError::NamespaceToken)
    ));
}

#[test]
fn a_pattern_names_the_locale_exactly_once() {
    assert!(matches!(
        DictionaryPattern::new("translation.json"),
        Err(ConfigError::LocaleToken)
    ));
    assert!(matches!(
        DictionaryPattern::new("{locale}/{locale}.json"),
        Err(ConfigError::LocaleToken)
    ));
    assert!(!DictionaryPattern::new("{locale}.json").unwrap().has_namespace());
}

#[test]
fn a_pattern_that_is_no_glob_is_refused_with_the_reason() {
    match DictionaryPattern::new("translations[/{locale}.json") {
        Err(ConfigError::Glob(message)) => assert!(message.contains('['), "{message}"),
        other => panic!("unexpected result: {other:?}"),
    }
}

#[test]
fn a_path_has_to_match_as_a_glob_and_letter_by_letter() {
    let pattern = DictionaryPattern::new("t?/{locale}.json").unwrap();
    assert_eq!(
        pattern.locale_for("/project", "/project/t?/de.json"),
        Some("de".to_owned())
    );
    assert_eq!(pattern.locale_for("/project", "/project/tx/de.json"), None);
    let pattern = DictionaryPattern::new("[ab]/{locale}.json").unwrap();
    assert_eq!(pattern.locale_for("/project", "/project/[ab]/de.json"), None);
    let pattern = DictionaryPattern::new("{locale}.json").unwrap();
    assert_eq!(pattern.locale_for("/project", "/project/sub/de.json"), None);
    assert_eq!(pattern.locale_for("/project", "/project/de.json"), Some("de".to_owned()));
    assert_eq!(pattern.search_root("/project"), "/project");
}

#[test]
fn each_empty_setting_is_named() {
    let cases: Vec<(Config, &str)> = vec![
        (Config { default_locale: "".into(), ..config(&[], ".") }, "defaultLocale"),
        (
            Config { default_namespace: Some("".into()), ..config(&[], ".") },
            "defaultNamespace",
        ),
        (config(&[], ""), "keySeparator"),
        (Config { scoped_functions: vec![], ..config(&[], ".") }, "scopedFunctions"),
        (Config { full_key_functions: vec![], ..config(&[], ".") }, "fullKeyFunctions"),
        (
            Config { translation_key_types: vec!["".into()], ..config(&[], ".") },
            "translationKeyTypes",
        ),
        (
            Config { translation_key_props: vec!["".into()], ..config(&[], ".") },
            "translationKeyProps",
        ),
    ];
    for (config, field) in cases {
        match config.validate() {
            Err(ConfigError::Empty(found)) => assert_eq!(found, field),
            other => panic!("unexpected result for {field}: {other:?}"),
        }
    }
}

#[test]
fn a_full_key_function_is_configured_once() {
    let config = Config {
        full_key_functions: vec![full_key("translate", None), full_key("translate", None)],
        ..config(&[], ".")
    };
    assert!(matches!(
        config.validate(),
        Err(ConfigError::DuplicateFunction { field: "fullKeyFunctions", name }) if name == "translate"
    ));
}

#[test]
fn functions_are_found_by_name() {
    let config = config(&[], ".");
    assert_eq!(
        config.scoped_function("useScopedTranslation").unwrap().translation_methods,
        vec!["t"]
    );
    assert!(config.scoped_function("translate").is_none());
    assert!(config.full_key_function("translate").is_some());
    assert!(config.full_key_function("t").is_none());
}

#[test]
fn errors_say_what_is_wrong() {
    let cases: Vec<(ConfigError, &str)> = vec![
        (
            ConfigError::LocaleToken,
            "dictionary pattern must contain exactly one {locale} token",
        ),
        (
            ConfigError::Empty("keySeparator"),
            "keySeparator must not be empty",
        ),
        (
            ConfigError::MissingDefaultLocale("en".into()),
            "default locale \"en\" has no matching dictionary",
        ),
        (
            ConfigError::Read(
                "/project/locale-breeze.json".into(),
                ReadFault { message: "denied".into(), missing: false },
            ),
            "failed to read /project/locale-breeze.json: denied",
        ),
        (
            ConfigError::NamespaceToken,
            "dictionary pattern must contain at most one {namespace} token",
        ),
        (
            ConfigError::AbsoluteDictionaryPattern,
            "dictionary pattern must be relative to the workspace root",
        ),
        (
            ConfigError::InvalidIgnoredScope("a\"b".into()),
            "ignored scope \"a\\\"b\" is not a valid translation key",
        ),
        (ConfigError::Glob("unclosed".into()), "invalid dictionary glob: unclosed"),
        (
            ConfigError::MissingDefaultNamespace,
            "multiple namespaces were found; set defaultNamespace",
        ),
        (
            ConfigError::MissingNamespaceDictionary {
                field: "scopedFunctions".into(),
                namespace: "home".into(),
                locale: "en".into(),
            },
            "scopedFunctions namespace \"home\" has no dictionary for locale \"en\"",
        ),
        (
            ConfigError::DuplicateFunction { field: "scopedFunctions", name: "useA".into() },
            "duplicate function name \"useA\" in scopedFunctions",
        ),
        (
            ConfigError::InvalidDictionary {
                path: "/project/en.json".into(),
                message: "broken".into(),
                line: Some(1),
                column: Some(2),
            },
            "dictionary /project/en.json is invalid: broken",
        ),
        (
            ConfigError::Json(JsonFault {
                kind: JsonFaultKind::Eof,
                message: "EOF while parsing an object at line 1 column 1".into(),
                line: 1,
                column: 1,
            }),
            "invalid configuration JSON: EOF while parsing an object at line 1 column 1",
        ),
    ];
    for (error, text) in cases {
        assert_eq!(error.message(), text);
    }
}
