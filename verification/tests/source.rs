use locale_breeze::{
    analyze_source, analyze_source_with_namespace, FullKeyFunctionConfig, OccurrenceKind,
    ScopedFunctionConfig,
};

#[test]
fn captures_static_translation_arguments_and_uncertainty() {
    let uri = "file:///app.ts";
    let text = "i18next.t('items', { count, name: user, 'label': value }); i18next.t('other', { count, ...values }); i18next.t('third', options);";
    let (found, _) = analyze_source(uri, text, ".", &[], &[], &["i18next.t".into()], &[], &[]);
    let calls = found
        .iter()
        .filter(|occurrence| occurrence.kind == OccurrenceKind::FullKey)
        .collect::<Vec<_>>();
    assert_eq!(calls.len(), 3);
    let first = calls[0].arguments.as_ref().unwrap();
    assert!(!first.uncertain);
    assert_eq!(
        first
            .supplied
            .iter()
            .map(|argument| argument.name.as_str())
            .collect::<Vec<_>>(),
        ["count", "name", "label"]
    );
    assert!(calls[1].arguments.as_ref().unwrap().uncertain);
    assert!(calls[1].arguments.as_ref().unwrap().has("count"));
    assert!(calls[2].arguments.as_ref().unwrap().uncertain);
}

#[test]
fn recognizes_supported_patterns() {
    let text = r#"
          const i18n = useScopedTranslation('Page.Login');
          i18n.t('submit');
          i18n.key('page_title');
          const { t: tr } = useScopedTranslation("Page.Home");
          tr('title');
          i18next.t('Page.Login.cancel');
        "#;
    let uri = "file:///app.tsx";
    let (found, bindings) = analyze_source(
        uri,
        text,
        ".",
        &["useScopedTranslation".into()],
        &["t".into(), "key".into()],
        &["i18next.t".into()],
        &[],
        &[],
    );
    assert_eq!(bindings.len(), 3);
    let keys: Vec<_> = found
        .iter()
        .filter(|o| o.kind != OccurrenceKind::ScopeDeclaration)
        .map(|o| o.key.as_str())
        .collect();
    assert_eq!(
        keys,
        [
            "Page.Login.submit",
            "Page.Login.page_title",
            "Page.Home.title",
            "Page.Login.cancel"
        ]
    );
}

#[test]
fn recognizes_standard_i18next_namespaces_and_key_prefixes() {
    let uri = "file:///app.tsx";
    let text = r#"
          const { t: commonT } = useTranslation('common', { keyPrefix: 'buttons' });
          commonT('save');
          const i18n = useTranslation();
          i18n.t('errors:notFound');
          i18next.t('title', { ns: 'home' });
        "#;
    let (found, bindings) =
        analyze_source_with_namespace(uri, text, ".", &[], &[], &[], &[], Some("translation"));
    assert!(bindings.iter().any(|binding| {
        binding.name == "commonT"
            && binding.namespace.as_deref() == Some("common")
            && binding
                .scope
                .as_ref()
                .is_some_and(|scope| scope.as_str() == "buttons")
    }));
    assert!(found
        .iter()
        .any(|occurrence| occurrence.namespace.as_deref() == Some("common")
            && occurrence.key.as_str() == "buttons.save"));
    assert!(found.iter().any(|occurrence| {
        occurrence.kind == OccurrenceKind::ScopeDeclaration
            && occurrence.namespace.as_deref() == Some("common")
            && occurrence.key.as_str() == "buttons"
    }));
    assert!(found
        .iter()
        .any(|occurrence| occurrence.namespace.as_deref() == Some("errors")
            && occurrence.key.as_str() == "notFound"));
    assert!(found
        .iter()
        .any(|occurrence| occurrence.namespace.as_deref() == Some("home")
            && occurrence.key.as_str() == "title"));
}

#[test]
fn function_namespaces_and_methods_override_the_global_default() {
    let uri = "file:///app.tsx";
    let text = r#"
          const a = useAlpha('Page');
          a.t('title');
          a.key('ignored');
          const { key } = useBeta('Card');
          key('label');
          translate('plain');
          translate('explicit:value');
        "#;
    let scoped = vec![
        ScopedFunctionConfig {
            function_name: "useAlpha".into(),
            default_namespace: Some("alpha".into()),
            translation_methods: vec!["t".into()],
        },
        ScopedFunctionConfig {
            function_name: "useBeta".into(),
            default_namespace: None,
            translation_methods: vec!["key".into()],
        },
    ];
    let full = vec![FullKeyFunctionConfig {
        function_name: "translate".into(),
        default_namespace: Some("full".into()),
    }];
    let (found, bindings) = analyze_source_with_namespace(
        uri,
        text,
        ".",
        &scoped,
        &full,
        &[],
        &[],
        Some("global"),
    );

    assert!(bindings.iter().any(|binding| {
        binding.name == "a"
            && binding.method == "t"
            && binding.namespace.as_deref() == Some("alpha")
    }));
    assert!(!bindings
        .iter()
        .any(|binding| binding.name == "a" && binding.method == "key"));
    assert!(found.iter().any(|occurrence| {
        occurrence.namespace.as_deref() == Some("alpha") && occurrence.key.as_str() == "Page.title"
    }));
    assert!(found.iter().any(|occurrence| {
        occurrence.namespace.as_deref() == Some("global")
            && occurrence.key.as_str() == "Card.label"
    }));
    assert!(found.iter().any(|occurrence| {
        occurrence.namespace.as_deref() == Some("full") && occurrence.key.as_str() == "plain"
    }));
    assert!(found.iter().any(|occurrence| {
        occurrence.namespace.as_deref() == Some("explicit") && occurrence.key.as_str() == "value"
    }));
}

#[test]
fn ignores_dynamic_calls() {
    let (found, _) = analyze_source(
        "file:///app.ts",
        "const x=useScopedTranslation(getScope()); x.t(key)",
        ".",
        &["useScopedTranslation".into()],
        &["t".into()],
        &["i18next.t".into()],
        &[],
        &[],
    );
    assert!(found.is_empty());
}

#[test]
fn recognizes_dynamic_template_scopes() {
    let text = "const i18n=useScopedTranslation('Page'); i18n.t(`Cards.${card}`); i18next.t(`SomeScope.${value}.ignored`)";
    let (found, _) = analyze_source(
        "file:///app.ts",
        text,
        ".",
        &["useScopedTranslation".into()],
        &["t".into()],
        &["i18next.t".into()],
        &[],
        &[],
    );
    let dynamic = found
        .iter()
        .filter(|occurrence| occurrence.kind == OccurrenceKind::DynamicScope)
        .map(|occurrence| occurrence.key.as_str())
        .collect::<Vec<_>>();
    assert_eq!(dynamic, ["Page.Cards", "SomeScope"]);
    assert_eq!(&text[found[1].range.0.clone()], "Cards");
    assert_eq!(found[1].scope.as_ref().unwrap().as_str(), "Page");
    assert_eq!(found[1].relative_key.as_deref(), Some("Cards"));
}

#[test]
fn non_literal_scoped_calls_mark_the_binding_scope_dynamic() {
    let text = "const i18n=useScopedTranslation('AiCaseStatuses'); i18n.t(testCase.status)";
    let (found, _) = analyze_source(
        "file:///app.ts",
        text,
        ".",
        &["useScopedTranslation".into()],
        &["t".into()],
        &["i18next.t".into()],
        &[],
        &[],
    );
    let dynamic = found
        .iter()
        .find(|occurrence| occurrence.kind == OccurrenceKind::DynamicScope)
        .unwrap();
    assert_eq!(dynamic.key.as_str(), "AiCaseStatuses");
    assert!(dynamic.range.0.is_empty());
}

#[test]
fn recognizes_configured_lexical_key_sinks() {
    let text = r#"
          const typed: TranslationKey = 'Page.Typed';
          const asserted = 'Page.Asserted' as TranslationKey;
          const satisfied = 'Page.Satisfied' satisfies TranslationKey;
          const ignored: string = 'Page.Ignored';
          const jsx = <><Card transKey="Page.Jsx"/><Card transKey={'Page.Expression'}/></>;
          const object = { transKey: 'Page.Object', other: 'Page.Other' };
        "#;
    let (found, _) = analyze_source(
        "file:///app.tsx",
        text,
        ".",
        &["useScopedTranslation".into()],
        &["t".into()],
        &["i18next.t".into()],
        &["TranslationKey".into()],
        &["transKey".into()],
    );
    let keys = found
        .iter()
        .map(|occurrence| occurrence.key.as_str())
        .collect::<Vec<_>>();
    assert_eq!(
        keys,
        [
            "Page.Typed",
            "Page.Asserted",
            "Page.Satisfied",
            "Page.Jsx",
            "Page.Expression",
            "Page.Object"
        ]
    );
}

#[test]
fn bindings_are_followed_inside_of_their_block() {
    let text = "{ const i18n = useScopedTranslation('Page'); i18n.t('inside'); } i18n.t('outside');";
    let (found, bindings) = analyze_source(
        "file:///app.ts",
        text,
        ".",
        &["useScopedTranslation".into()],
        &["t".into()],
        &[],
        &[],
        &[],
    );
    let keys = found
        .iter()
        .filter(|occurrence| occurrence.kind == OccurrenceKind::ScopedKey)
        .map(|occurrence| occurrence.key.as_str())
        .collect::<Vec<_>>();
    assert_eq!(keys, ["Page.inside"]);
    assert_eq!(bindings.len(), 1);
    assert_eq!(bindings[0].visibility.0.end, text.find('}').unwrap() + 1);
}

#[test]
fn literals_are_read_in_both_quotes() {
    let text = r#"i18next.t("a\u0062"); i18next.t('it\'s'); i18next.t("open)"#;
    let (found, _) =
        analyze_source("file:///app.ts", text, ".", &[], &[], &["i18next.t".into()], &[], &[]);
    let keys = found.iter().map(|occurrence| occurrence.key.as_str()).collect::<Vec<_>>();
    assert_eq!(keys, ["ab", "it's"]);
    assert_eq!(&text[found[0].range.0.clone()], "a\\u0062");
}
