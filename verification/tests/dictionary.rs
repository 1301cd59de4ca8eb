use locale_breeze::{parse_dictionary, parse_dictionary_ignoring, DictionaryError, EntryKind};

#[test]
fn flattens_and_retains_ranges() {
    let text = r#"{"Page":{"Login":{"submit":"Sign in"}}}"#;
    let entries = parse_dictionary("file:///translation.en.json", "en", text, ".").unwrap();
    assert_eq!(entries.len(), 3);
    let leaf = entries.last().unwrap();
    assert_eq!(leaf.key.as_str(), "Page.Login.submit");
    assert_eq!(&text[leaf.key_range.0.clone()], "submit");
    assert_eq!(leaf.value.as_deref(), Some("Sign in"));
}

#[test]
fn only_strings_and_objects_are_entries() {
    let text = r#"{"list":["a"],"number":1,"nothing":null,"yes":true,"text":"T","inner":{"x":"X"}}"#;
    let entries = parse_dictionary("file:///en.json", "en", text, ".").unwrap();
    let found = entries
        .iter()
        .map(|entry| (entry.key.as_str(), entry.kind, entry.value.as_deref()))
        .collect::<Vec<_>>();
    assert_eq!(
        found,
        [
            ("text", EntryKind::Leaf, Some("T")),
            ("inner", EntryKind::Object, None),
            ("inner.x", EntryKind::Leaf, Some("X")),
        ]
    );
}

#[test]
fn escapes_are_read() {
    let text = r#"{"a\u0062":"line\nfeed \"quoted\""}"#;
    let entries = parse_dictionary("file:///en.json", "en", text, ".").unwrap();
    assert_eq!(entries[0].key.as_str(), "ab");
    assert_eq!(entries[0].value.as_deref(), Some("line\nfeed \"quoted\""));
}

#[test]
fn ignored_scopes_are_left_out() {
    let text = r#"{"Page":{"title":"T"},"Server":{"x":"X"},"Servers":"S"}"#;
    let entries =
        parse_dictionary_ignoring("file:///en.json", "en", text, ".", &["Server".into()]).unwrap();
    let keys = entries.iter().map(|entry| entry.key.as_str()).collect::<Vec<_>>();
    assert_eq!(keys, ["Page", "Page.title", "Servers"]);
}

#[test]
fn text_that_is_no_json_is_refused() {
    match parse_dictionary("file:///en.json", "en", "{\n  \"a\": }", ".") {
        Err(DictionaryError::InvalidJson(fault)) => {
            assert_eq!((fault.line, fault.column), (2, 8));
            assert_eq!(fault.message, "expected value at line 2 column 8");
        }
        other => panic!("unexpected result {other:?}"),
    }
    assert_eq!(
        DictionaryError::Parser.message(),
        "could not initialize the JSON parser"
    );
}
