//! Which workspace answers an editor, and with what.
use crate::commands;
use crate::dictionary;
use crate::dictionary::EntryKind;
use crate::edit;
use crate::index;
use crate::key;
use crate::laws;
use crate::laws::cursor;
use crate::laws::documents;
use crate::navigation;
use crate::path;
use crate::position;
use crate::protocol;
use crate::server;
use crate::sort;
use crate::source::OccurrenceKind;
use crate::urls;
use crate::workspace;
use crate::workspace::WorkspaceIndex;
use vstd::prelude::*;

verus! {

/// Whether a document is one of a workspace: it lies in the root, or is one of the dictionaries.
pub open spec fn is_document_of(held: workspace::WorkspaceView, path: Seq<char>) -> bool {
    path::is_within(path, held.root, held.platform) || held.identity(path) is Some
}

/// The workspace that answers for a document is one that the document is of, and no workspace that
/// lies deeper is; where the document is of one, some workspace answers.
pub proof fn the_deepest_workspace_answers(
    server: server::ServerView,
    path: Seq<char>,
    j: int,
)
    requires
        sort::is_ordered::<WorkspaceIndex>(server.workspaces),
        0 <= j < server.workspaces.len(),
        is_document_of(server.workspaces[j], path),
    ensures
        server::place_of(server.workspaces, Some(path)) matches Some(i) && 0 <= i
            < server.workspaces.len() && is_document_of(server.workspaces[i], path)
            && server.workspaces[j].depth() <= server.workspaces[i].depth(),
{
    server::lemma_place(server.workspaces, path, 0);
    let i = server::place_of(server.workspaces, Some(path))->0;
    if i < j {
        assert(!<WorkspaceIndex as sort::Ranked>::ahead(
            server.workspaces[j],
            server.workspaces[i],
        ));
    }
}

/// For a document of no workspace, and for one without a path, nothing is answered.
pub proof fn other_documents_are_not_answered(
    server: server::ServerView,
    uri: Seq<char>,
    path: Option<Seq<char>>,
    query: server::QueryView,
)
    requires
        path matches Some(path) ==> forall|j: int|
            0 <= j < server.workspaces.len() ==> !is_document_of(
                #[trigger] server.workspaces[j],
                path,
            ),
    ensures
        server::reply_to(server, uri, path, query) == server::ReplyView::Nothing,
{
    if let Some(path) = path {
        server::lemma_place(server.workspaces, path, 0);
        if let Some(i) = server::place_from(server.workspaces, path, 0) {
            assert(is_document_of(server.workspaces[i], path));
        }
    }
}

/// What the first workspace that a document is of finds is what is answered.
pub proof fn questions_are_answered(
    server: server::ServerView,
    uri: Seq<char>,
    path: Seq<char>,
    i: int,
    position: position::Position,
    include_declaration: bool,
)
    requires
        0 <= i < server.workspaces.len(),
        is_document_of(server.workspaces[i], path),
        forall|j: int|
            0 <= j < i ==> !is_document_of(#[trigger] server.workspaces[j], path),
    ensures
        ({
            let held = server.workspaces[i];
            let asked = |query: server::QueryView|
                server::reply_to(server, uri, Some(path), query);
            &&& asked(server::QueryView::Hover { position }) == match navigation::hover_at(
                held,
                uri,
                position,
            ) {
                Some(text) => server::ReplyView::Hover(text),
                None => server::ReplyView::Nothing,
            }
            &&& asked(server::QueryView::Definition { position })
                == match navigation::definition_at(held, uri, position) {
                Some(places) => server::ReplyView::Places(places),
                None => server::ReplyView::Nothing,
            }
            &&& asked(server::QueryView::References { position, include_declaration })
                == match navigation::references_at(held, uri, position, include_declaration) {
                Some(places) => server::ReplyView::Places(places),
                None => server::ReplyView::Nothing,
            }
            &&& asked(server::QueryView::Completion { position })
                == match commands::completions_at(held, uri, position) {
                Some(list) => server::ReplyView::Completions(list),
                None => server::ReplyView::Nothing,
            }
            &&& asked(server::QueryView::DocumentKeys) == server::ReplyView::Keys(
                commands::keys_in(held, uri),
            )
        }),
{
    server::lemma_place(server.workspaces, path, 0);
    let k = server::place_from(server.workspaces, path, 0)->0;
    assert(server.workspaces[i].contains(path));
    if k < i {
        assert(!is_document_of(server.workspaces[k], path));
    }
}

/// From a key in source code the hover shows its translation, where the dictionaries of the default
/// locale have one entry for it, and the full key is told with its namespace.
pub proof fn hovering_shows_the_translation(
    held: workspace::WorkspaceView,
    uri: Seq<char>,
    position: position::Position,
    key: key::QualifiedKeyView,
    entry: dictionary::EntryView,
    value: Seq<char>,
)
    requires
        laws::key_stands_at(held, uri, position, key.namespace, key.key),
        cursor::is_default_entry(held, key, entry),
        entry.kind == EntryKind::Leaf,
        entry.value == Some(value),
        forall|other: dictionary::EntryView|
            cursor::is_default_entry(held, key, other) ==> other == entry,
    ensures
        server::workspace_reply(held, uri, server::QueryView::Hover { position })
            == server::ReplyView::Hover(value),
        server::workspace_reply(held, uri, server::QueryView::ResolveKey { position })
            == server::ReplyView::Key(
            match key.namespace {
                Some(namespace) => namespace + ":"@ + key.key,
                None => key.key,
            },
        ),
{
    cursor::hovering_tells_of_the_default_locale(held, key);
}

/// A key can be added from where it stands in source code, at the version that the editor has, if
/// it is not declared yet and names more than a dynamic scope: then the edit is that for the key.
pub proof fn missing_keys_can_be_added(
    held: workspace::WorkspaceView,
    uri: Seq<char>,
    position: position::Position,
    value: Seq<char>,
    version: Option<i32>,
    file: index::FileView,
)
    requires
        held.snapshot.file(uri) == Some(file),
    ensures
        ({
            let edit = commands::addition_at(held, uri, position, value, version);
            match laws::occurrence_at(held, uri, position) {
                None => edit is None,
                Some(here) => {
                    let key = key::QualifiedKeyView { namespace: here.namespace, key: here.key };
                    if (version is None || version == file.version) && here.kind
                        != OccurrenceKind::DynamicScope && !exists|entry: dictionary::EntryView|
                        cursor::is_default_entry(held, key, entry) {
                        edit == edit::edit_for(
                            held.snapshot,
                            here.namespace,
                            here.key,
                            held.config.default_locale,
                            held.config.key_separator,
                            value,
                        )
                    } else {
                        edit is None
                    }
                },
            }
        }),
{
    if let Some(here) = laws::occurrence_at(held, uri, position) {
        documents::declared_keys_have_entries(
            held,
            key::QualifiedKeyView { namespace: here.namespace, key: here.key },
        );
    }
}

/// Whether workspace `i` is the first that a document is of.
pub open spec fn is_first_of(server: server::ServerView, i: int, path: Seq<char>) -> bool {
    &&& 0 <= i < server.workspaces.len()
    &&& is_document_of(server.workspaces[i], path)
    &&& forall|j: int| 0 <= j < i ==> !is_document_of(#[trigger] server.workspaces[j], path)
}

proof fn lemma_first(server: server::ServerView, i: int, path: Seq<char>)
    requires
        is_first_of(server, i, path),
    ensures
        server::place_of(server.workspaces, Some(path)) == Some(i),
{
    server::lemma_place(server.workspaces, path, 0);
    let k = server::place_from(server.workspaces, path, 0)->0;
    assert(server.workspaces[i].contains(path));
    if k < i {
        assert(!is_document_of(server.workspaces[k], path));
    }
}

/// Whether a text and a version are held in workspace `i` under a URI, and all other workspaces,
/// and all other files of this one, are as they were.
pub open spec fn holds_text(
    before: server::ServerView,
    after: server::ServerView,
    i: int,
    uri: Seq<char>,
    text: Seq<char>,
    version: Option<i32>,
    other: Seq<char>,
) -> bool {
    &&& after.workspaces.len() == before.workspaces.len()
    &&& after.roots == before.roots
    &&& forall|j: int|
        0 <= j < before.workspaces.len() && j != i ==> #[trigger] after.workspaces[j]
            == before.workspaces[j]
    &&& after.workspaces[i].snapshot.file(uri) matches Some(file) && file.text == text
        && file.version == version
    &&& other != uri ==> after.workspaces[i].snapshot.file(other)
        == before.workspaces[i].snapshot.file(other)
}

/// The text of a document that an editor opens is held by the first workspace that the document is
/// of, under the URI that the document has there, or else under its canonical one.
pub proof fn opened_texts_are_held(
    before: server::ServerView,
    uri: Seq<char>,
    path: Seq<char>,
    kept: Option<Seq<char>>,
    kept_uri: Option<Seq<char>>,
    text: Seq<char>,
    version: Option<i32>,
    process: u32,
    sent: Seq<protocol::OutgoingView>,
    after: server::ServerView,
    i: int,
    other: Seq<char>,
)
    requires
        before.updates(uri, Some(path), kept, kept_uri, text, version, process, sent, after),
        is_first_of(before, i, path),
        index::are_distinct(before.workspaces[i].snapshot.files),
        before.workspaces[i].snapshot.generation < u64::MAX,
        !before.workspaces[i].is_stale(uri, version),
    ensures
        holds_text(
            before,
            after,
            i,
            if before.workspaces[i].snapshot.file(uri) is Some {
                uri
            } else {
                urls::canonical(uri, kept, kept_uri)
            },
            text,
            version,
            other,
        ),
{
    lemma_first(before, i, path);
    laws::accepted_text_is_held(
        before.workspaces[i],
        uri,
        kept,
        urls::canonical(uri, kept, kept_uri),
        text,
        version,
        other,
    );
}

/// Changes to a document are made, one after the other, to the text that is held of it; to a
/// document that is not held they come to nothing.
pub proof fn changed_texts_are_held(
    before: server::ServerView,
    uri: Seq<char>,
    path: Seq<char>,
    kept: Option<Seq<char>>,
    kept_uri: Option<Seq<char>>,
    changes: Seq<edit::ChangeView>,
    version: i32,
    process: u32,
    sent: Seq<protocol::OutgoingView>,
    after: server::ServerView,
    i: int,
    other: Seq<char>,
)
    requires
        before.edits(uri, Some(path), kept, kept_uri, changes, version, process, sent, after),
        is_first_of(before, i, path),
        index::are_distinct(before.workspaces[i].snapshot.files),
        before.workspaces[i].snapshot.generation < u64::MAX,
        !before.workspaces[i].is_stale(uri, Some(version)),
    ensures
        match before.workspaces[i].snapshot.file(uri) {
            Some(file) => holds_text(
                before,
                after,
                i,
                uri,
                edit::changed_by(file.text, changes, changes.len() as int),
                Some(version),
                other,
            ),
            None => after == before && sent.len() == 0,
        },
{
    lemma_first(before, i, path);
    if let Some(file) = before.workspaces[i].snapshot.file(uri) {
        opened_texts_are_held(
            before,
            uri,
            path,
            kept,
            kept_uri,
            edit::changed_by(file.text, changes, changes.len() as int),
            Some(version),
            process,
            sent,
            after,
            i,
            other,
        );
    }
}

} // verus!
