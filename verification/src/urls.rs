//! URIs, by way of `url`.
use crate::names;
use crate::path;
use crate::path::Platform;
use crate::text;
use vstd::prelude::*;

verus! {

/// The scheme of `uri`, where it is a URI.
pub uninterp spec fn scheme(uri: Seq<char>) -> Option<Seq<char>>;

/// Calls `url::Url::parse` and `url::Url::scheme`; the scheme, where the text is a URI, is named by
/// `scheme`.
#[verifier::external_body]
pub(crate) fn scheme_of(uri: &str) -> (found: Option<String>)
    ensures
        found.deep_view() == scheme(uri@),
{
    Some(String::from(url::Url::parse(uri).ok()?.scheme()))
}

/// The last segment of the path of `uri`, where it is a URI with segments.
pub uninterp spec fn last_segment(uri: Seq<char>) -> Option<Seq<char>>;

/// Calls `url::Url::parse` and `url::Url::path_segments`; the last segment, where there is one, is
/// named by `last_segment`.
#[verifier::external_body]
pub(crate) fn last_segment_of(uri: &str) -> (found: Option<String>)
    ensures
        found.deep_view() == last_segment(uri@),
{
    url::Url::parse(uri).ok()?.path_segments()?.last().map(String::from)
}

/// A URI as `url` writes it, where the text is one.
pub uninterp spec fn written(text: Seq<char>) -> Option<Seq<char>>;

/// Calls `url::Url::parse`; the URI as it is then written is named by `written`.
#[verifier::external_body]
fn rewrite(text: &str) -> (uri: Option<String>)
    ensures
        uri.deep_view() == written(text@),
{
    url::Url::parse(text).ok().map(String::from)
}

/// Calls `url::Url::to_file_path`: the bytes of the path that a URI stands for, where there is one.
/// How paths are written depends on the operating system, so nothing is said of the result.
#[verifier::external_body]
pub(crate) fn path_of(uri: &str) -> (path: Option<Vec<u8>>) {
    let path = url::Url::parse(uri).ok()?.to_file_path().ok()?;
    Some(path.into_os_string().into_encoded_bytes())
}

/// Calls `url::Url::to_file_path` and `url::Url::from_file_path`: the URI of the path that a URI
/// stands for, whether the path is text or not. How paths are written depends on the operating
/// system, so nothing is said of the result.
#[verifier::external_body]
pub(crate) fn path_uri_of(uri: &str) -> (path_uri: Option<String>) {
    let path = url::Url::parse(uri).ok()?.to_file_path().ok()?;
    url::Url::from_file_path(path).ok().map(String::from)
}

/// Calls `url::Url::from_file_path`: the URI of a path, where it is absolute. How paths are written
/// depends on the operating system, so nothing is said of the result.
#[verifier::external_body]
pub(crate) fn uri_of(path: &str) -> (uri: Option<String>) {
    url::Url::from_file_path(path).ok().map(String::from)
}

/// What `convert` makes of a text.
fn converted<R, F: Fn(&str) -> Option<R>>(convert: F, text: &str) -> (result: Option<R>)
    requires
        call_requires(convert, (text,)),
    ensures
        call_ensures(convert, (text,), result),
{
    convert(text)
}

/// Whether `path` is the text for what a call of `path_of` gives for a URI.
pub closed spec fn is_path(uri: Seq<char>, path: Option<Seq<char>>) -> bool {
    exists|text: &str, result: Option<Vec<u8>>|
        text@ == uri && path == (match result {
            Some(bytes) => Some(names::name_of(bytes@)),
            None => None,
        }) && #[trigger] call_ensures(path_of, (text,), result)
}

/// Whether `uri` is what a call of `uri_of` gives for a path; for one that is no text, what a call
/// of `path_uri_of` gives for a URI with its bytes.
pub closed spec fn is_uri(path: Seq<char>, uri: Option<Seq<char>>) -> bool {
    if names::has_stand_in(path) {
        is_path_uri(names::file_uri(names::bytes_of(path)), uri)
    } else {
        exists|text: &str, result: Option<String>|
            text@ == path && result.deep_view() == uri && #[trigger] call_ensures(
                uri_of,
                (text,),
                result,
            )
    }
}

/// Whether `path_uri` is what a call of `path_uri_of` gives for a URI.
pub closed spec fn is_path_uri(uri: Seq<char>, path_uri: Option<Seq<char>>) -> bool {
    exists|text: &str, result: Option<String>|
        text@ == uri && result.deep_view() == path_uri && #[trigger] call_ensures(
            path_uri_of,
            (text,),
            result,
        )
}

/// Whether `paths` are those that URIs stand for, one by one.
pub open spec fn are_paths(uris: Seq<Seq<char>>, paths: Seq<Option<Seq<char>>>) -> bool {
    &&& paths.len() == uris.len()
    &&& forall|i: int| 0 <= i < paths.len() ==> is_path(uris[i], #[trigger] paths[i])
}

/// Whether a URI stands for `path`, and `path_uri` is the URI of that.
pub open spec fn is_place(
    uri: Seq<char>,
    path: Option<Seq<char>>,
    path_uri: Option<Seq<char>>,
) -> bool {
    is_path(uri, path) && if path is Some {
        is_path_uri(uri, path_uri)
    } else {
        path_uri is None
    }
}

/// The path that a URI stands for, where there is one.
pub(crate) fn find_path(uri: &str) -> (path: Option<String>)
    ensures
        is_path(uri@, path.deep_view()),
{
    match converted(path_of, uri) {
        Some(bytes) => Some(names::name_bytes(&bytes)),
        None => None,
    }
}

/// The paths that URIs stand for.
pub(crate) fn find_paths(uris: &[String]) -> (paths: Vec<Option<String>>)
    ensures
        are_paths(uris.deep_view(), paths.deep_view()),
{
    let ghost all = uris.deep_view();
    let mut paths: Vec<Option<String>> = Vec::new();
    let mut n: usize = 0;
    while n < uris.len()
        invariant
            n <= uris@.len(),
            all == uris.deep_view(),
            paths@.len() == n,
            forall|i: int| 0 <= i < n ==> is_path(all[i], #[trigger] paths.deep_view()[i]),
        decreases uris@.len() - n,
    {
        assert(all[n as int] == uris@[n as int]@);
        let ghost before = paths.deep_view();
        let path = find_path(uris[n].as_str());
        paths.push(path);
        assert(paths.deep_view() =~= before.push(path.deep_view()));
        n += 1;
    }
    paths
}

/// The path that a URI stands for, where there is one, and the URI of that.
pub(crate) fn find_place(uri: &str) -> (place: (Option<String>, Option<String>))
    ensures
        is_place(uri@, place.0.deep_view(), place.1.deep_view()),
{
    let path = find_path(uri);
    let path_uri = match &path {
        Some(_) => converted(path_uri_of, uri),
        None => None,
    };
    (path, path_uri)
}

/// The URI of a path, where it is absolute.
pub(crate) fn find_uri(path: &str) -> (uri: Option<String>)
    ensures
        is_uri(path@, uri.deep_view()),
{
    if names::stands_in(path) {
        let uri = names::spell_uri(&names::list_bytes(path));
        converted(path_uri_of, uri.as_str())
    } else {
        converted(uri_of, path)
    }
}

/// The URI under which a file is kept that has no other yet, given its scheme: that of its path, for
/// a file.
pub open spec fn canonical_for(
    uri: Seq<char>,
    scheme: Option<Seq<char>>,
    path: Option<Seq<char>>,
    path_uri: Option<Seq<char>>,
) -> Seq<char> {
    if scheme == Some("file"@) && path is Some && path_uri is Some {
        path_uri->0
    } else {
        uri
    }
}

/// The URI under which a file is kept that has no other yet.
pub open spec fn canonical(
    uri: Seq<char>,
    path: Option<Seq<char>>,
    path_uri: Option<Seq<char>>,
) -> Seq<char> {
    canonical_for(uri, scheme(uri), path, path_uri)
}

/// The URI under which a file is kept that has no other yet, given its scheme, its path and the URI
/// of that.
pub fn choose_uri(
    uri: &str,
    scheme: &Option<String>,
    path: &Option<String>,
    path_uri: &Option<String>,
) -> (result: String)
    ensures
        result@ == canonical_for(
            uri@,
            scheme.deep_view(),
            path.deep_view(),
            path_uri.deep_view(),
        ),
{
    if let Some(found) = scheme {
        if text::same(found.as_str(), "file") && path.is_some() {
            if let Some(path_uri) = path_uri {
                return path_uri.clone();
            }
        }
    }
    uri.to_owned()
}

/// The URI under which a file is kept that has no other yet, given its path and the URI of that.
pub fn canonical_file_uri(uri: &str, path: &Option<String>, path_uri: &Option<String>) -> (result:
    String)
    ensures
        result@ == canonical(uri@, path.deep_view(), path_uri.deep_view()),
{
    choose_uri(uri, &scheme_of(uri), path, path_uri)
}

/// A canonical URI as files are told apart by it on Windows: in lower case.
pub open spec fn key_for(canonical: Seq<char>) -> Seq<char> {
    match written(path::lowered(canonical)) {
        Some(key) => key,
        None => canonical,
    }
}

/// What files on disk are told apart by on a platform, given the canonical URI of one.
pub open spec fn disk_key(canonical: Seq<char>, platform: Platform) -> Seq<char> {
    match platform {
        Platform::Posix => canonical,
        Platform::Windows => key_for(canonical),
    }
}

/// Whether files are told apart by `key` on a platform, where one has this URI.
pub open spec fn is_key(uri: Seq<char>, platform: Platform, key: Seq<char>) -> bool {
    if platform == Platform::Windows && scheme(uri) == Some("file"@) {
        exists|file: Option<Seq<char>>, path_uri: Option<Seq<char>>| #[trigger]
            is_place(uri, file, path_uri) && key == key_for(canonical(uri, file, path_uri))
    } else {
        key == uri
    }
}

/// A canonical URI as files are told apart by it on Windows.
fn fold_case(canonical: String) -> (key: String)
    ensures
        key@ == key_for(canonical@),
{
    match rewrite(path::lower_text(canonical.as_str()).as_str()) {
        Some(key) => key,
        None => canonical,
    }
}

/// What files on disk are told apart by on a platform, given the canonical URI of one.
pub fn key_on_disk(canonical: &str, platform: Platform) -> (key: String)
    ensures
        key@ == disk_key(canonical@, platform),
{
    match platform {
        Platform::Posix => canonical.to_owned(),
        Platform::Windows => fold_case(canonical.to_owned()),
    }
}

/// The URI by which files are told apart on a platform.
pub fn normalized_uri(uri: &str, platform: Platform) -> (key: String)
    ensures
        is_key(uri@, platform, key@),
{
    match platform {
        Platform::Posix => uri.to_owned(),
        Platform::Windows => {
            if let Some(found) = scheme_of(uri) {
                if text::same(found.as_str(), "file") {
                    let (file, path_uri) = find_place(uri);
                    return fold_case(canonical_file_uri(uri, &file, &path_uri));
                }
            }
            uri.to_owned()
        },
    }
}

} // verus!
