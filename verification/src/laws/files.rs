//! What a file adds to the index.
use crate::analysis;
use crate::dictionary;
use crate::index;
use crate::json;
use crate::key;
use crate::laws::members;
use crate::pattern;
use crate::sort;
use crate::source;
use crate::source::OccurrenceKind;
use crate::syntax;
use crate::text;
use crate::workspace;
use vstd::prelude::*;

verus! {

/// The dictionary that a text is, with its tree.
pub open spec fn dictionary_in(
    held: workspace::WorkspaceView,
    identity: pattern::IdentityView,
    uri: Seq<char>,
    text: Seq<char>,
    tree: Seq<syntax::NodeView>,
) -> dictionary::DictionaryView {
    dictionary::DictionaryView {
        uri,
        locale: identity.locale,
        separator: held.config.key_separator,
        tree,
        strings: syntax::strings_of(tree, text),
    }
}

/// The source code that a text is, with its tree.
pub open spec fn source_in(
    held: workspace::WorkspaceView,
    uri: Seq<char>,
    text: Seq<char>,
    tree: Seq<syntax::NodeView>,
) -> analysis::SourceView {
    analysis::SourceView {
        uri,
        text,
        tree,
        strings: syntax::strings_of(tree, text),
        separator: held.config.key_separator,
        scoped_functions: held.config.scoped_functions,
        full_key_functions: held.config.full_key_functions,
        key_types: held.config.translation_key_types,
        key_props: held.config.translation_key_props,
        default_namespace: held.config.default_namespace,
    }
}

/// A dictionary adds its entries to the index, in the namespace that its path names, but for those
/// in ignored scopes; and nothing else.
pub proof fn dictionaries_add_their_entries(
    held: workspace::WorkspaceView,
    uri: Seq<char>,
    path: Seq<char>,
    text: Seq<char>,
    version: Option<i32>,
    identity: pattern::IdentityView,
    tree: Seq<syntax::NodeView>,
    entry: dictionary::EntryView,
)
    requires
        held.identity(path) == Some(identity),
        json::fault(text) is None,
        syntax::json_tree(text) == Some(tree),
    ensures
        held.contribution(uri, path, text, version) matches Some(file) && {
            &&& file.uri == uri && file.text == text && file.version == version
            &&& file.occurrences.len() == 0 && file.ignored_occurrences.len() == 0
                && file.bindings.len() == 0
            &&& file.dictionaries.contains(entry) <==> entry.namespace == identity.namespace
                && !held.ignores(entry.key) && exists|raw: dictionary::EntryView| #[trigger]
                dictionary_in(held, identity, uri, text, tree).entries().contains(raw) && entry == (
                dictionary::EntryView { namespace: identity.namespace, ..raw })
        },
{
    let scopes = text::distinct(
        held.config.ignored_scopes,
        held.config.ignored_scopes.len() as int,
    );
    let separator = held.config.key_separator;
    let file = held.contribution(uri, path, text, version)->0;
    let all = dictionary_in(held, identity, uri, text, tree).entries();
    let keep = |entry: dictionary::EntryView| !key::ignored(scopes, entry.key, separator);
    let rest = dictionary::without_ignored(all, scopes, separator);
    assert(rest == sort::kept(all, keep));
    if file.dictionaries.contains(entry) {
        let k = file.dictionaries.index_of(entry);
        assert(rest.contains(rest[k]));
        members::kept_members(all, keep, rest[k]);
        assert(file.dictionaries[k] == workspace::in_namespace(rest[k], identity.namespace));
    }
    if !held.ignores(entry.key) && exists|raw: dictionary::EntryView| #[trigger]
        all.contains(raw) && entry == (dictionary::EntryView {
            namespace: identity.namespace,
            ..raw
        }) {
        let raw = choose|raw: dictionary::EntryView| #[trigger]
            all.contains(raw) && entry == (dictionary::EntryView {
                namespace: identity.namespace,
                ..raw
            });
        members::kept_members(all, keep, raw);
        let k = rest.index_of(raw);
        assert(file.dictionaries[k] == entry);
    }
}

/// Whether an occurrence in an ignored scope is worth a warning: something is written there, and
/// it is not only its scope that is ignored, unless that is what it declares.
pub open spec fn is_worth_a_warning(
    held: workspace::WorkspaceView,
    occurrence: source::OccurrenceView,
) -> bool {
    &&& held.ignores(occurrence.key)
    &&& occurrence.range.0 < occurrence.range.1
    &&& occurrence.kind == OccurrenceKind::ScopeDeclaration || occurrence.scope is None
        || !held.ignores(occurrence.scope->0)
}

/// Source code adds what it names to the index, with its translators; what is in an ignored scope
/// is kept apart, where it is worth a warning.
pub proof fn source_code_adds_its_occurrences(
    held: workspace::WorkspaceView,
    uri: Seq<char>,
    path: Seq<char>,
    text: Seq<char>,
    version: Option<i32>,
    tree: Seq<syntax::NodeView>,
    occurrence: source::OccurrenceView,
)
    requires
        held.identity(path) is None,
        workspace::is_source(path, held.platform),
        syntax::tsx_tree(text) == Some(tree),
    ensures
        held.contribution(uri, path, text, version) matches Some(file) && {
            let found = source_in(held, uri, text, tree);
            &&& file.uri == uri && file.text == text && file.version == version
            &&& file.dictionaries.len() == 0
            &&& file.bindings == found.bindings()
            &&& file.occurrences.contains(occurrence) <==> found.occurrences().contains(occurrence)
                && !held.ignores(occurrence.key)
            &&& file.ignored_occurrences.contains(occurrence) <==> found.occurrences().contains(
                occurrence,
            ) && is_worth_a_warning(held, occurrence)
        },
{
    let scopes = text::distinct(
        held.config.ignored_scopes,
        held.config.ignored_scopes.len() as int,
    );
    let separator = held.config.key_separator;
    let file = held.contribution(uri, path, text, version)->0;
    let source = source_in(held, uri, text, tree);
    let found = analysis::occurrences_in(held.source_file(uri, text), Some(tree));
    assert(found == source.occurrences());
    let keep = |occurrence: source::OccurrenceView|
        !key::ignored(scopes, occurrence.key, separator);
    let drop = |occurrence: source::OccurrenceView|
        key::ignored(scopes, occurrence.key, separator) && workspace::is_notable(
            occurrence,
            scopes,
            separator,
        );
    assert(file.occurrences == sort::kept(found, keep));
    assert(file.ignored_occurrences == sort::kept(found, drop));
    members::kept_members(found, keep, occurrence);
    members::kept_members(found, drop, occurrence);
}

/// What is neither a dictionary nor source code adds nothing; nor does a dictionary that is no JSON.
pub proof fn other_files_add_nothing(
    held: workspace::WorkspaceView,
    uri: Seq<char>,
    path: Seq<char>,
    text: Seq<char>,
    version: Option<i32>,
)
    ensures
        held.identity(path) is None && !workspace::is_source(path, held.platform)
            ==> held.contribution(uri, path, text, version) is None,
        held.identity(path) is Some && json::fault(text) is Some ==> held.contribution(
            uri,
            path,
            text,
            version,
        ) is None,
{
}

/// A key is ignored where it is an ignored scope, and only where it is one or lies below one.
pub proof fn ignored_scopes_are_ignored(
    held: workspace::WorkspaceView,
    key: Seq<char>,
    scope: Seq<char>,
)
    ensures
        held.config.ignored_scopes.contains(key) ==> held.ignores(key),
        held.config.ignored_scopes.contains(scope) && held.config.key_separator.len() > 0
            && crate::laws::is_unbordered(held.config.key_separator) && key::is_below(
            key,
            scope,
            held.config.key_separator,
        ) ==> held.ignores(key),
        held.ignores(key) ==> exists|other: Seq<char>| #[trigger]
            held.config.ignored_scopes.contains(other) && (key == other || key::is_below(
                key,
                other,
                held.config.key_separator,
            )),
{
    let all = held.config.ignored_scopes;
    let scopes = text::distinct(all, all.len() as int);
    let separator = held.config.key_separator;
    crate::laws::lemma_distinct_members(all, all.len() as int);
    if all.contains(key) {
        assert(scopes.contains(all[all.index_of(key)]));
    }
    if all.contains(scope) && separator.len() > 0 && crate::laws::is_unbordered(separator)
        && key::is_below(key, scope, separator) {
        assert(scopes.contains(all[all.index_of(scope)]));
        crate::laws::ignoring_covers_what_lies_below(scopes, scope, key, separator);
    }
    if held.ignores(key) {
        crate::laws::ignoring_is_exact(scopes, key, separator);
        let other = choose|other: Seq<char>|
            #[trigger] scopes.contains(other) && (key == other || key::is_below(
                key,
                other,
                separator,
            ));
        assert(all.contains(other));
    }
}

/// A file is found under its URI after it was put among the files, and the others as before.
pub proof fn files_are_found_under_their_uri(
    files: Seq<index::FileView>,
    file: index::FileView,
    uri: Seq<char>,
)
    requires
        index::are_distinct(files),
    ensures
        ({
            let after = index::SnapshotView { generation: 0, files: index::with_file(files, file) };
            let before = index::SnapshotView { generation: 0, files };
            after.file(uri) == if uri == file.uri {
                Some(file)
            } else {
                before.file(uri)
            }
        }),
{
    crate::laws::lemma_found(files, file, uri);
}

} // verus!
