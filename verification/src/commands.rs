//! What an editor asks for: completions, the keys of a document, and a new key.
use crate::chars;
use crate::completion;
use crate::completion::CompletionCandidate;
use crate::dictionary;
use crate::dictionary::DictionaryEntry;
use crate::edit;
use crate::edit::PreparedEdit;
use crate::key;
use crate::navigation;
use crate::position;
use crate::position::{Position, Range};
use crate::source;
use crate::source::{OccurrenceKind, SourceOccurrence};
use crate::text;
use crate::workspace;
use crate::workspace::WorkspaceIndex;
use vstd::prelude::*;

verus! {

/// How many completions are offered.
pub const COMPLETION_LIMIT: usize = 100;

/// A completion as an editor lists it.
#[derive(Debug)]
pub struct CompletionItem {
    pub label: String,
    pub detail: String,
    pub filter_text: String,
    pub insert_text: String,
    pub sort_text: String,
}

/// What a `CompletionItem` holds.
pub struct ItemView {
    pub label: Seq<char>,
    pub detail: Seq<char>,
    pub filter_text: Seq<char>,
    pub insert_text: Seq<char>,
    pub sort_text: Seq<char>,
}

impl DeepView for CompletionItem {
    type V = ItemView;

    open spec fn deep_view(&self) -> ItemView {
        ItemView {
            label: self.label@,
            detail: self.detail@,
            filter_text: self.filter_text@,
            insert_text: self.insert_text@,
            sort_text: self.sort_text@,
        }
    }
}

/// The completions at a position.
#[derive(Debug)]
pub struct CompletionList {
    pub is_incomplete: bool,
    pub items: Vec<CompletionItem>,
}

/// What a `CompletionList` holds.
pub struct ListView {
    pub is_incomplete: bool,
    pub items: Seq<ItemView>,
}

impl DeepView for CompletionList {
    type V = ListView;

    open spec fn deep_view(&self) -> ListView {
        ListView { is_incomplete: self.is_incomplete, items: self.items.deep_view() }
    }
}

/// How far a score is from the best one.
pub open spec fn distance(score: i64) -> int {
    if 10000 - score > i64::MAX {
        i64::MAX as int
    } else {
        10000 - score
    }
}

/// A number with its sign, in five places or more.
pub open spec fn padded(n: int) -> Seq<char> {
    if n < 0 {
        "-"@ + chars::decimal((-n) as nat, 4)
    } else {
        chars::decimal(n as nat, 5)
    }
}

/// A candidate as an editor lists it: ahead of others, and the better the further ahead.
pub open spec fn item_for(candidate: completion::CandidateView) -> ItemView {
    ItemView {
        label: match candidate.detail {
            Some(value) => candidate.key + " — "@ + value,
            None => candidate.key,
        },
        detail: candidate.canonical_key,
        filter_text: candidate.key,
        insert_text: candidate.key,
        sort_text: "00000-"@ + padded(distance(candidate.score)),
    }
}

/// The completions at a position.
pub open spec fn completions_at(
    workspace: workspace::WorkspaceView,
    uri: Seq<char>,
    position: Position,
) -> Option<ListView> {
    match position::offset_in(workspace.snapshot, uri, position) {
        None => None,
        Some(offset) => match completion::context_at(
            workspace.snapshot,
            uri,
            offset as usize,
            workspace.config,
        ) {
            None => None,
            Some(context) => {
                let all = completion::ranked_candidates(
                    workspace.snapshot,
                    context,
                    workspace.config.default_locale,
                    workspace.config.key_separator,
                );
                let offered = if all.len() > COMPLETION_LIMIT {
                    all.take(COMPLETION_LIMIT as int)
                } else {
                    all
                };
                Some(
                    ListView {
                        is_incomplete: all.len() > COMPLETION_LIMIT,
                        items: offered.map_values(
                            |candidate: completion::CandidateView| item_for(candidate),
                        ),
                    },
                )
            },
        },
    }
}

/// A key in a document.
#[derive(Debug)]
pub struct DocumentKeyInfo {
    pub range: Range,
    pub key: String,
    pub declaration_exists: bool,
    pub can_add: bool,
}

/// What a `DocumentKeyInfo` holds.
pub struct KeyInfoView {
    pub range: Range,
    pub key: Seq<char>,
    pub declaration_exists: bool,
    pub can_add: bool,
}

impl DeepView for DocumentKeyInfo {
    type V = KeyInfoView;

    open spec fn deep_view(&self) -> KeyInfoView {
        KeyInfoView {
            range: self.range,
            key: self.key@,
            declaration_exists: self.declaration_exists,
            can_add: self.can_add,
        }
    }
}

/// The keys in a document, and its version.
#[derive(Debug)]
pub struct DocumentKeysResult {
    pub version: Option<i32>,
    pub keys: Vec<DocumentKeyInfo>,
}

/// What a `DocumentKeysResult` holds.
pub struct KeysView {
    pub version: Option<i32>,
    pub keys: Seq<KeyInfoView>,
}

impl DeepView for DocumentKeysResult {
    type V = KeysView;

    open spec fn deep_view(&self) -> KeysView {
        KeysView { version: self.version, keys: self.keys.deep_view() }
    }
}

/// Whether one of the entries is in the locale.
pub open spec fn has_locale(entries: Seq<dictionary::EntryView>, locale: Seq<char>) -> bool {
    exists|i: int| 0 <= i < entries.len() && (#[trigger] entries[i]).locale == locale
}

/// Whether a key has an entry in the default locale.
pub open spec fn is_declared(
    workspace: workspace::WorkspaceView,
    namespace: Option<Seq<char>>,
    key: Seq<char>,
) -> bool {
    has_locale(
        workspace.snapshot.entries_of(namespace, key),
        workspace.config.default_locale,
    )
}

/// What is said of an occurrence: its key, whether that exists, and whether it can be added.
pub open spec fn key_info(
    workspace: workspace::WorkspaceView,
    occurrence: source::OccurrenceView,
) -> Option<KeyInfoView> {
    if occurrence.range.0 >= occurrence.range.1 {
        None
    } else {
        match position::location_of(workspace.snapshot, occurrence.uri, occurrence.range) {
            None => None,
            Some(location) => {
                let declared = is_declared(workspace, occurrence.namespace, occurrence.key);
                Some(
                    KeyInfoView {
                        range: location.range,
                        key: key::qualified_text(
                            key::QualifiedKeyView {
                                namespace: occurrence.namespace,
                                key: occurrence.key,
                            },
                        ),
                        declaration_exists: declared,
                        can_add: (occurrence.kind == OccurrenceKind::FullKey || occurrence.kind
                            == OccurrenceKind::ScopedKey) && !declared && edit::target_for(
                            workspace.snapshot,
                            occurrence.namespace,
                            occurrence.key,
                            workspace.config.default_locale,
                            workspace.config.key_separator,
                        ) is Some,
                    },
                )
            },
        }
    }
}

/// What is said of the first `n` occurrences.
pub open spec fn key_infos(
    workspace: workspace::WorkspaceView,
    occurrences: Seq<source::OccurrenceView>,
    n: int,
) -> Seq<KeyInfoView>
    decreases n,
{
    if n <= 0 {
        Seq::empty()
    } else {
        let front = key_infos(workspace, occurrences, n - 1);
        match key_info(workspace, occurrences[n - 1]) {
            Some(info) => front.push(info),
            None => front,
        }
    }
}

/// The keys in a document.
pub open spec fn keys_in(workspace: workspace::WorkspaceView, uri: Seq<char>) -> KeysView {
    match workspace.snapshot.file(uri) {
        Some(file) => KeysView {
            version: file.version,
            keys: key_infos(workspace, file.occurrences, file.occurrences.len() as int),
        },
        None => KeysView { version: None, keys: Seq::empty() },
    }
}

/// The edit that adds the key at a position, which an editor asks for at a version.
pub open spec fn addition_at(
    workspace: workspace::WorkspaceView,
    uri: Seq<char>,
    position: Position,
    value: Seq<char>,
    version: Option<i32>,
) -> Option<edit::EditView> {
    let held = match workspace.snapshot.file(uri) {
        Some(file) => file.version,
        None => None,
    };
    if version is Some && version != held {
        None
    } else {
        match position::offset_in(workspace.snapshot, uri, position) {
            None => None,
            Some(offset) => match navigation::occurrence_under(
                workspace.snapshot,
                uri,
                offset as usize,
            ) {
                None => None,
                Some(occurrence) => if occurrence.kind == OccurrenceKind::DynamicScope
                    || is_declared(workspace, occurrence.namespace, occurrence.key) {
                    None
                } else {
                    edit::edit_for(
                        workspace.snapshot,
                        occurrence.namespace,
                        occurrence.key,
                        workspace.config.default_locale,
                        workspace.config.key_separator,
                        value,
                    )
                },
            },
        }
    }
}

/// A number with its sign, in five places or more.
fn write_padded(n: i64) -> (text: String)
    ensures
        text@ == padded(n as int),
{
    if n < 0 {
        let size: u64 = if n == i64::MIN {
            0x8000_0000_0000_0000
        } else {
            (-n) as u64
        };
        let mut text = "-".to_owned();
        text.append(chars::decimal_text(size, 4).as_str());
        text
    } else {
        chars::decimal_text(n as u64, 5)
    }
}

/// A candidate as an editor lists it.
pub fn list_candidate(candidate: &CompletionCandidate) -> (item: CompletionItem)
    ensures
        item.deep_view() == item_for(candidate.deep_view()),
{
    let mut label = candidate.key.clone();
    if let Some(value) = &candidate.detail {
        label.append(" — ");
        label.append(value.as_str());
    }
    let score: i64 = candidate.score;
    let away: i64 = if score < 10000 - i64::MAX {
        i64::MAX
    } else {
        10000 - score
    };
    let mut sort_text = "00000-".to_owned();
    sort_text.append(write_padded(away).as_str());
    CompletionItem {
        label,
        detail: candidate.canonical_key.clone(),
        filter_text: candidate.key.clone(),
        insert_text: candidate.key.clone(),
        sort_text,
    }
}

/// The completions at a position.
pub fn complete(workspace: &WorkspaceIndex, uri: &str, position: Position) -> (list: Option<
    CompletionList,
>)
    ensures
        list.deep_view() == completions_at(workspace.deep_view(), uri@, position),
{
    let snapshot = workspace.snapshot();
    let config = workspace.config();
    let offset: usize = match position::position_offset(snapshot, uri, position) {
        Some(offset) => offset,
        None => {
            return None;
        },
    };
    let context = match snapshot.completion_context_at(uri, offset, config) {
        Some(context) => context,
        None => {
            return None;
        },
    };
    let (candidates, is_incomplete) = snapshot.completions(
        &context,
        config.default_locale.as_str(),
        config.key_separator.as_str(),
        COMPLETION_LIMIT,
    );
    let ghost all = candidates.deep_view();
    let ghost whole = all.map_values(|candidate: completion::CandidateView| item_for(candidate));
    let mut items: Vec<CompletionItem> = Vec::new();
    assert(items.deep_view() =~= whole.take(0));
    let mut n: usize = 0;
    while n < candidates.len()
        invariant
            n <= candidates@.len(),
            all == candidates.deep_view(),
            whole == all.map_values(
                |candidate: completion::CandidateView| item_for(candidate),
            ),
            items.deep_view() == whole.take(n as int),
        decreases candidates@.len() - n,
    {
        assert(all[n as int] == candidates@[n as int].deep_view());
        let ghost before = items.deep_view();
        items.push(list_candidate(&candidates[n]));
        assert(items.deep_view() =~= before.push(whole[n as int]));
        assert(whole.take(n + 1) =~= before.push(whole[n as int]));
        n += 1;
    }
    assert(whole.take(n as int) =~= whole);
    Some(CompletionList { is_incomplete, items })
}

/// Whether one of the entries is in the locale.
fn any_in_locale(entries: &[&DictionaryEntry], locale: &str) -> (found: bool)
    ensures
        found == has_locale(entries.deep_view(), locale@),
{
    let ghost all = entries.deep_view();
    let mut n: usize = 0;
    while n < entries.len()
        invariant
            n <= entries@.len(),
            all == entries.deep_view(),
            forall|i: int| 0 <= i < n ==> (#[trigger] all[i]).locale != locale@,
        decreases entries@.len() - n,
    {
        assert(all[n as int] == entries@[n as int].deep_view());
        if text::same(entries[n].locale.as_str(), locale) {
            return true;
        }
        n += 1;
    }
    false
}

/// Whether the key of an occurrence has an entry in the default locale.
fn declared(workspace: &WorkspaceIndex, occurrence: &SourceOccurrence) -> (found: bool)
    ensures
        found == is_declared(
            workspace.deep_view(),
            occurrence.deep_view().namespace,
            occurrence.key@,
        ),
{
    let entries = workspace.snapshot().qualified_entries(
        text::borrowed(&occurrence.namespace),
        &occurrence.key,
    );
    any_in_locale(&entries, workspace.config().default_locale.as_str())
}

/// What is said of an occurrence.
fn describe_key(workspace: &WorkspaceIndex, occurrence: &SourceOccurrence) -> (info: Option<
    DocumentKeyInfo,
>)
    ensures
        info.deep_view() == key_info(workspace.deep_view(), occurrence.deep_view()),
{
    if occurrence.range.0.start >= occurrence.range.0.end {
        return None;
    }
    let snapshot = workspace.snapshot();
    let location = match position::location(
        snapshot,
        occurrence.uri.as_str(),
        &occurrence.range,
    ) {
        Some(location) => location,
        None => {
            return None;
        },
    };
    let declaration_exists = declared(workspace, occurrence);
    let addable: bool = occurrence.kind == OccurrenceKind::FullKey || occurrence.kind
        == OccurrenceKind::ScopedKey;
    let can_add: bool = addable && !declaration_exists && edit::insertion_target(
        snapshot,
        text::borrowed(&occurrence.namespace),
        &occurrence.key,
        workspace.config().default_locale.as_str(),
        workspace.config().key_separator.as_str(),
    ).is_some();
    let qualified = key::QualifiedKey::new(
        text::copy(&occurrence.namespace),
        occurrence.key.clone(),
    );
    Some(
        DocumentKeyInfo {
            range: location.range,
            key: qualified.display(),
            declaration_exists,
            can_add,
        },
    )
}

/// The keys in a document.
pub fn document_keys(workspace: &WorkspaceIndex, uri: &str) -> (result: DocumentKeysResult)
    ensures
        result.deep_view() == keys_in(workspace.deep_view(), uri@),
{
    let ghost view = workspace.deep_view();
    let snapshot = workspace.snapshot();
    let occurrences = snapshot.source_occurrences(uri);
    let ghost all = occurrences.deep_view();
    assert(all.len() == occurrences@.len());
    let mut keys: Vec<DocumentKeyInfo> = Vec::new();
    assert(keys.deep_view() =~= Seq::<KeyInfoView>::empty());
    let mut n: usize = 0;
    while n < occurrences.len()
        invariant
            n <= occurrences@.len(),
            view == workspace.deep_view(),
            all == occurrences.deep_view(),
            keys.deep_view() == key_infos(view, all, n as int),
        decreases occurrences@.len() - n,
    {
        assert(all[n as int] == occurrences@[n as int].deep_view());
        if let Some(info) = describe_key(workspace, &occurrences[n]) {
            let ghost before = keys.deep_view();
            keys.push(info);
            assert(keys.deep_view() =~= before.push(info.deep_view()));
        }
        n += 1;
    }
    DocumentKeysResult { version: snapshot.version(uri), keys }
}

/// The edit that adds the key at a position, which an editor asks for at a version.
pub fn prepare_add_key(
    workspace: &WorkspaceIndex,
    uri: &str,
    position: Position,
    value: &str,
    version: Option<i32>,
) -> (edit: Option<PreparedEdit>)
    ensures
        edit.deep_view() == addition_at(
            workspace.deep_view(),
            uri@,
            position,
            value@,
            version,
        ),
{
    let snapshot = workspace.snapshot();
    if let Some(wanted) = version {
        match snapshot.version(uri) {
            Some(held) => {
                if held != wanted {
                    return None;
                }
            },
            None => {
                return None;
            },
        }
    }
    let offset: usize = match position::position_offset(snapshot, uri, position) {
        Some(offset) => offset,
        None => {
            return None;
        },
    };
    let occurrence = match snapshot.occurrence_at(uri, offset) {
        Some(occurrence) => occurrence,
        None => {
            return None;
        },
    };
    if occurrence.kind == OccurrenceKind::DynamicScope || declared(workspace, occurrence) {
        return None;
    }
    edit::prepare_insertion(
        snapshot,
        text::borrowed(&occurrence.namespace),
        &occurrence.key,
        workspace.config().default_locale.as_str(),
        workspace.config().key_separator.as_str(),
        value,
    )
}

} // verus!
