use locale_breeze::names::{list_bytes, name_bytes, show, spell_uri};
use locale_breeze::path::Platform::{Posix, Windows};
use locale_breeze::path::{
    comes_before, components_in, equal_paths, join, normalize, path_is_within, platform_here,
    relative_path, same_path, text_of, within,
};
use locale_breeze::pattern::normalize_pattern;
use locale_breeze::{chars, search, text};
use std::path::Path;

#[test]
fn white_space_is_that_of_unicode() {
    for c in '\0'..=char::MAX {
        assert_eq!(chars::is_white_space(c), c.is_whitespace(), "{c:?}");
    }
    assert_eq!(chars::trim_start("\u{3000} a b "), "a b ");
    assert_eq!(chars::trim_end("\u{3000} a b \n"), "\u{3000} a b");
    assert!(chars::blank(" \r\n\t"));
    assert!(!chars::blank(" x "));
}

#[test]
fn numbers_are_written_with_leading_zeros() {
    assert_eq!(chars::decimal_text(0, 0), "0");
    assert_eq!(chars::decimal_text(42, 5), "00042");
    assert_eq!(chars::decimal_text(123456, 5), "123456");
    assert_eq!(chars::decimal_text(u64::MAX, 0), u64::MAX.to_string());
}

#[test]
fn texts_are_searched_from_both_ends() {
    assert_eq!(search::split("a//b///c", "//"), vec!["a", "b", "/c"]);
    assert_eq!(search::split("ab", ""), vec!["", "a", "b", ""]);
    assert_eq!(search::join(&search::split("a.b.c", "."), "."), "a.b.c");
    assert_eq!(search::replace("a\\b\\c", "\\", "/"), "a/b/c");
    assert_eq!(search::count_in("aaa", "aa"), 1);
    assert!(search::begins("abc", "ab") && search::ends("abc", "bc"));
    assert!(search::holds("abc", "b") && !search::holds("abc", "d"));
}

#[test]
fn texts_are_cut_at_bytes() {
    assert_eq!(text::slice("aç😀", 1, 3), Some("ç"));
    assert_eq!(text::slice("aç😀", 2, 3), None);
    assert_eq!(text::slice("aç😀", 3, 1), None);
    assert_eq!(text::size("aç😀"), 7);
    assert!(text::less("a", "ab") && text::less("Z", "a") && !text::less("b", "b"));
}

#[test]
fn paths_compare_as_lists_of_components() {
    let samples = [
        "", ".", "..", "/", "/a", "/a/", "/a/b", "/a-b", "/a/./b", "/a//b", "/a/../b", "a", "a/b",
        "./a", "../a", "/a.b/c", "/B", "/a/b/c",
    ];
    for left in samples {
        for right in samples {
            let before = comes_before(&components_in(left, Posix), &components_in(right, Posix));
            assert_eq!(before, Path::new(left) < Path::new(right), "{left:?} {right:?}");
            assert_eq!(
                same_path(left, right, Posix),
                Path::new(left) == Path::new(right),
                "{left:?} {right:?}"
            );
            assert_eq!(
                within(left, right, Posix),
                Path::new(left).starts_with(right),
                "{left:?} {right:?}"
            );
        }
        assert_eq!(
            Path::new(&join(left, "x.json", Posix)),
            Path::new(left).join("x.json"),
            "{left:?}"
        );
    }
}

#[test]
fn steps_up_are_carried_out() {
    let plain = |path: &str| text_of(&normalize(&components_in(path, Posix), Posix), Posix);
    assert_eq!(plain("/a/./b/../c"), "/a/c");
    assert_eq!(plain("/../a"), "/a");
    assert_eq!(plain("a/../.."), "");
    let way = |root: &str, path: &str| {
        relative_path(&components_in(root, Posix), &components_in(path, Posix), Posix)
            .map(|way| text_of(&way, Posix))
    };
    assert_eq!(way("/a/b", "/a/c/d"), Some("../c/d".to_owned()));
    assert_eq!(way("/a", "/a"), Some("".to_owned()));
    assert_eq!(way("a", "b"), None);
    assert_eq!(normalize_pattern("./a//b/../{locale}.json"), "a/{locale}.json");
    assert_eq!(normalize_pattern("../../a"), "../../a");
}

#[test]
fn workspace_path_matching_ignores_windows_casing() {
    let root = r"C:\Users\Example\Project";
    let file = r"c:\users\example\project\src\app.ts";
    assert!(same_path(root, r"c:\users\example\project", Windows));
    assert!(path_is_within(file, root, Windows));
    assert!(!same_path("/Project", "/project", Posix));
    assert!(!path_is_within("/project/app.ts", "/Project", Posix));
}

#[test]
fn paths_have_drives_and_shares_on_windows() {
    let list = |path: &str| components_in(path, Windows);
    assert_eq!(list(r"C:\a/b\.\c"), ["C:", "/", "a", "b", "c"]);
    assert_eq!(list(r"C:a"), ["C:", "a"]);
    assert_eq!(list(r"\\server\share\a"), ["//server/share", "/", "a"]);
    assert_eq!(list(r"\a"), ["/", "a"]);
    assert_eq!(components_in(r"C:\a", Posix), [r"C:\a"]);
    for path in [r"C:\a\b", r"\\server\share\a", r"a\b", r"C:\", r"\a"] {
        assert_eq!(text_of(&list(path), Windows), path);
    }
    let plain = |path: &str| text_of(&normalize(&list(path), Windows), Windows);
    assert_eq!(plain(r"C:\a\..\..\b"), r"C:\b");
    assert_eq!(plain(r"C:.."), "C:");
    assert!(within(r"c:\a\b", r"C:\a", Windows));
    assert!(!within(r"C:\A\b", r"C:\a", Windows));
    assert!(equal_paths(r"c:\a", r"C:/a", Windows));
    assert_eq!(join(r"C:\a", "x.json", Windows), r"C:\a\x.json");
    assert_eq!(join(r"C:\", "x.json", Windows), r"C:\x.json");
    assert_eq!(join("C:", "x.json", Windows), "C:x.json");
    let way = relative_path(&list(r"c:\a\b"), &list(r"C:\a\c"), Windows).unwrap();
    assert_eq!(text_of(&way, Windows), r"..\c");
    assert_eq!(platform_here() == Windows, std::path::is_separator('\\'));
}

#[test]
fn every_path_has_a_text_of_its_own() {
    let samples: [&[u8]; 9] = [
        b"",
        b"/a/b.ts",
        "/\u{e9}/\u{20ac}/\u{1f600}".as_bytes(),
        b"/\xff.ts",
        b"/\xfe.ts",
        b"/\xc3/\xa9",
        b"/\xed\xa0\x80",
        "/\u{10ff80}".as_bytes(),
        b"/\xf4\x8f\xbe",
    ];
    for left in samples {
        let name = name_bytes(left);
        assert_eq!(list_bytes(&name), left);
        assert_eq!(show(&name), String::from_utf8_lossy(left));
        for right in samples {
            assert_eq!(name == name_bytes(right), left == right);
        }
    }
    assert_eq!(name_bytes("/\u{e9}".as_bytes()), "/\u{e9}");
    assert_eq!(show(&name_bytes(b"/\xff.ts")), "/\u{fffd}.ts");
    assert_eq!(spell_uri(b"/a b/\xff-~.ts"), "file:///a%20b/%FF-~.ts");
}
