//! What an editor is told of the keys in a document, and offered to write.
use crate::commands;
use crate::completion;
use crate::dictionary;
use crate::edit;
use crate::index;
use crate::key;
use crate::laws;
use crate::laws::cursor;
use crate::laws::members;
use crate::position;
use crate::source;
use crate::source::OccurrenceKind;
use crate::workspace;
use vstd::prelude::*;

verus! {

/// Whether what is said of an occurrence is right: its place, its key, whether that has an entry in
/// the default locale, and whether it can be added.
pub open spec fn tells_of(
    held: workspace::WorkspaceView,
    occurrence: source::OccurrenceView,
    info: commands::KeyInfoView,
) -> bool {
    let key = key::QualifiedKeyView { namespace: occurrence.namespace, key: occurrence.key };
    let declared = exists|entry: dictionary::EntryView| cursor::is_default_entry(held, key, entry);
    &&& occurrence.range.0 < occurrence.range.1
    &&& position::location_of(held.snapshot, occurrence.uri, occurrence.range) matches Some(place)
        && info.range == place.range
    &&& info.key == match occurrence.namespace {
        Some(namespace) => namespace + ":"@ + occurrence.key,
        None => occurrence.key,
    }
    &&& info.declaration_exists == declared
    &&& info.can_add <==> !declared && (occurrence.kind == OccurrenceKind::FullKey
        || occurrence.kind == OccurrenceKind::ScopedKey) && edit::target_for(
        held.snapshot,
        occurrence.namespace,
        occurrence.key,
        held.config.default_locale,
        held.config.key_separator,
    ) is Some
}

/// A key is declared where a dictionary of the default locale has it.
pub proof fn declared_keys_have_entries(
    held: workspace::WorkspaceView,
    key: key::QualifiedKeyView,
)
    ensures
        commands::is_declared(held, key.namespace, key.key) <==> exists|
            entry: dictionary::EntryView,
        |
            cursor::is_default_entry(held, key, entry),
{
    let entries = held.snapshot.entries_of(key.namespace, key.key);
    let locale = held.config.default_locale;
    let any = arbitrary::<source::OccurrenceView>();
    if commands::is_declared(held, key.namespace, key.key) {
        let i = choose|i: int|
            0 <= i < entries.len() && (#[trigger] entries[i]).locale == locale;
        assert(entries.contains(entries[i]));
        members::lookups_are_exact(held.snapshot, key.namespace, key.key, entries[i], any);
        assert(cursor::is_default_entry(held, key, entries[i]));
    }
    if exists|entry: dictionary::EntryView| cursor::is_default_entry(held, key, entry) {
        let entry = choose|entry: dictionary::EntryView|
            cursor::is_default_entry(held, key, entry);
        members::lookups_are_exact(held.snapshot, key.namespace, key.key, entry, any);
        assert(entries[entries.index_of(entry)].locale == locale);
    }
}

proof fn lemma_infos(
    held: workspace::WorkspaceView,
    occurrences: Seq<source::OccurrenceView>,
    n: int,
    info: commands::KeyInfoView,
)
    requires
        0 <= n <= occurrences.len(),
    ensures
        commands::key_infos(held, occurrences, n).contains(info) <==> exists|o: int|
            0 <= o < n && tells_of(held, #[trigger] occurrences[o], info),
    decreases n,
{
    if n > 0 {
        lemma_infos(held, occurrences, n - 1, info);
        let one = occurrences[n - 1];
        declared_keys_have_entries(
            held,
            key::QualifiedKeyView { namespace: one.namespace, key: one.key },
        );
        let front = commands::key_infos(held, occurrences, n - 1);
        match commands::key_info(held, one) {
            Some(found) => {
                assert(tells_of(held, one, found));
                assert(tells_of(held, one, info) <==> info == found);
                members::lemma_added(front, seq![found], info);
                assert(front.push(found) =~= front + seq![found]);
                assert(seq![found].contains(info) <==> info == found) by {
                    assert(seq![found][0] == found);
                }
            },
            None => {},
        }
    }
}

/// The keys of a document are told of exactly as they occur in it.
pub proof fn documents_tell_of_their_keys(
    held: workspace::WorkspaceView,
    uri: Seq<char>,
    file: index::FileView,
    info: commands::KeyInfoView,
)
    requires
        held.snapshot.file(uri) == Some(file),
    ensures
        commands::keys_in(held, uri).version == file.version,
        commands::keys_in(held, uri).keys.contains(info) <==> exists|o: int|
            0 <= o < file.occurrences.len() && tells_of(
                held,
                #[trigger] file.occurrences[o],
                info,
            ),
{
    lemma_infos(held, file.occurrences, file.occurrences.len() as int, info);
}

/// What is offered is what has to be written, with the key that it stands for and, where there is
/// one, its translation.
pub proof fn offers_are_what_has_to_be_written(candidate: completion::CandidateView)
    ensures
        ({
            let item = commands::item_for(candidate);
            &&& item.insert_text == candidate.key
            &&& item.filter_text == candidate.key
            &&& item.detail == candidate.canonical_key
            &&& item.label == match candidate.detail {
                Some(value) => candidate.key + " — "@ + value,
                None => candidate.key,
            }
        }),
{
}

/// The completions at a position are the best candidates for what is being written there, up to a
/// hundred; where there are more, the list is said to be incomplete.
pub proof fn the_best_candidates_are_offered(
    held: workspace::WorkspaceView,
    uri: Seq<char>,
    position: position::Position,
    offset: int,
    context: completion::ContextView,
    n: int,
)
    requires
        position::offset_in(held.snapshot, uri, position) == Some(offset),
        completion::context_at(held.snapshot, uri, offset as usize, held.config) == Some(context),
    ensures
        ({
            let all = completion::ranked_candidates(
                held.snapshot,
                context,
                held.config.default_locale,
                held.config.key_separator,
            );
            commands::completions_at(held, uri, position) matches Some(list) && {
                &&& list.is_incomplete == (list.items.len() < all.len())
                &&& list.items.len() <= 100
                &&& list.is_incomplete ==> list.items.len() == 100
                &&& 0 <= n < list.items.len() ==> list.items[n] == commands::item_for(all[n])
            }
        }),
{
}

/// A translation whose key holds what has been written in a string, which opens the arguments of a
/// function for whole keys, is offered there, as long as not too many are.
pub proof fn written_fragments_are_completed(
    held: workspace::WorkspaceView,
    uri: Seq<char>,
    position: position::Position,
    offset: int,
    context: completion::ContextView,
    k: int,
)
    requires
        position::offset_in(held.snapshot, uri, position) == Some(offset),
        completion::context_at(held.snapshot, uri, offset as usize, held.config) == Some(context),
        0 <= k < held.snapshot.entries().len(),
        laws::is_asked_for(held.snapshot.entries(), k, context, held.config.key_separator),
    ensures
        commands::completions_at(held, uri, position) matches Some(list) && (!list.is_incomplete
            ==> exists|n: int|
            0 <= n < list.items.len() && (#[trigger] list.items[n]).detail
                == held.snapshot.entries()[k].key),
{
    let separator = held.config.key_separator;
    let locale = held.config.default_locale;
    laws::fragments_find_keys(held.snapshot, context, locale, separator, k);
    let all = completion::ranked_candidates(held.snapshot, context, locale, separator);
    let n = choose|n: int|
        0 <= n < all.len() && laws::stands_for(
            #[trigger] all[n],
            held.snapshot.entries()[k],
            context,
            separator,
        );
    let list = commands::completions_at(held, uri, position)->0;
    if !list.is_incomplete {
        assert(list.items[n].detail == all[n].canonical_key);
    }
}

} // verus!
