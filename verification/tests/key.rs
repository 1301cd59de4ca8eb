use locale_breeze::key::{is_ignored_key, split_namespace_key};
use locale_breeze::{CanonicalKey, QualifiedKey};

#[test]
fn ignored_scope_matching_is_exact_and_separator_aware() {
    let ignored = ["Server_Errors".to_owned(), "Backend//Validation".to_owned()];
    assert!(is_ignored_key(&ignored, "Server_Errors", "."));
    assert!(is_ignored_key(&ignored, "Server_Errors.InvalidToken", "."));
    assert!(!is_ignored_key(
        &ignored,
        "Server_ErrorsExtra.InvalidToken",
        "."
    ));
    assert!(is_ignored_key(
        &ignored,
        "Backend//Validation//Required",
        "//"
    ));
    assert!(!is_ignored_key(&ignored, "Backend//Validator", "//"));
}

fn key(text: &str) -> CanonicalKey {
    CanonicalKey::new(text, ".").unwrap()
}

#[test]
fn a_key_has_no_empty_segment() {
    assert_eq!(key("Page.Login").as_str(), "Page.Login");
    for text in ["", ".", "a.", ".a", "a..b"] {
        assert!(CanonicalKey::new(text, ".").is_none(), "{text}");
    }
    assert!(CanonicalKey::new("a", "").is_none());
    assert!(CanonicalKey::new("a/b", "//").is_some());
}

#[test]
fn joining_and_taking_apart_fit_together() {
    let scope = key("Page.Login");
    let joined = CanonicalKey::join(&scope, "form.submit", ".").unwrap();
    assert_eq!(joined.as_str(), "Page.Login.form.submit");
    assert_eq!(joined.relative_to(&scope, "."), Some("form.submit"));
    assert_eq!(joined.parent(".").unwrap().as_str(), "Page.Login.form");
    assert!(joined.is_below(&scope, "."));
    assert_eq!(key("Page.LoginForm").relative_to(&scope, "."), None);
    assert!(!key("Page.LoginForm").is_below(&scope, "."));
    assert!(CanonicalKey::join(&scope, "", ".").is_none());
    assert!(key("Page").parent(".").is_none());
}

#[test]
fn a_namespace_stands_before_a_colon() {
    let (namespace, rest) = split_namespace_key("common:Page.title", ".").unwrap();
    assert_eq!((namespace.as_str(), rest.as_str()), ("common", "Page.title"));
    assert!(split_namespace_key("Page.title", ".").is_none());
    assert!(split_namespace_key(":Page.title", ".").is_none());
    assert!(split_namespace_key("common:", ".").is_none());
    let qualified = QualifiedKey::new(Some("common".into()), key("Page.title"));
    assert_eq!(qualified.display(), "common:Page.title");
    assert_eq!(QualifiedKey::new(None, key("a")).display(), "a");
}

#[test]
fn what_lies_below_an_ignored_key_is_ignored() {
    let ignored = ["Server".to_owned()];
    for text in ["Server.a", "Server.a.b", "Server.a.b.c"] {
        assert!(is_ignored_key(&ignored, text, "."), "{text}");
    }
    assert!(!is_ignored_key(&ignored, "Page.Server", "."));
    // Separators that overlap are found from the left.
    assert!(is_ignored_key(&["a".to_owned()], "a///b", "//"));
    assert!(!is_ignored_key(&["a/".to_owned()], "a///b", "//"));
}
