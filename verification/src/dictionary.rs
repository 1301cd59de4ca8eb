//! Dictionaries: JSON files whose nested objects hold translations.
use crate::json;
use crate::json::JsonFault;
use crate::key;
use crate::key::CanonicalKey;
use crate::lookup::Keyed;
use crate::search;
use crate::sort;
use crate::sort::Ranked;
use crate::syntax;
use crate::syntax::SyntaxNode;
use crate::text;
use crate::ByteRange;
use vstd::prelude::*;

verus! {

/// Whether a key of a dictionary holds more keys or a translation.
#[derive(Clone, Copy, Debug, PartialEq, Eq, Structural)]
pub enum EntryKind {
    Object,
    Leaf,
}

/// One key of a dictionary.
#[derive(Debug)]
pub struct DictionaryEntry {
    pub uri: String,
    pub namespace: Option<String>,
    pub key: CanonicalKey,
    pub locale: String,
    pub value: Option<String>,
    pub key_range: ByteRange,
    pub value_range: ByteRange,
    pub kind: EntryKind,
}

/// What a `DictionaryEntry` holds.
pub struct EntryView {
    pub uri: Seq<char>,
    pub namespace: Option<Seq<char>>,
    pub key: Seq<char>,
    pub locale: Seq<char>,
    pub value: Option<Seq<char>>,
    pub key_range: (usize, usize),
    pub value_range: (usize, usize),
    pub kind: EntryKind,
}

impl DeepView for DictionaryEntry {
    type V = EntryView;

    open spec fn deep_view(&self) -> EntryView {
        EntryView {
            uri: self.uri@,
            namespace: self.namespace.deep_view(),
            key: self.key@,
            locale: self.locale@,
            value: self.value.deep_view(),
            key_range: self.key_range.deep_view(),
            value_range: self.value_range.deep_view(),
            kind: self.kind,
        }
    }
}

impl Clone for DictionaryEntry {
    fn clone(&self) -> (copy: Self)
        ensures
            copy == *self,
    {
        DictionaryEntry {
            uri: self.uri.clone(),
            namespace: text::copy(&self.namespace),
            key: self.key.clone(),
            locale: self.locale.clone(),
            value: text::copy(&self.value),
            key_range: self.key_range.clone(),
            value_range: self.value_range.clone(),
            kind: self.kind,
        }
    }
}

/// Whether the first of two entries comes before the second: by key, then by locale, then by
/// file.
pub open spec fn entry_ahead(first: EntryView, second: EntryView) -> bool {
    ||| text::precedes(first.key, second.key)
    ||| first.key == second.key && text::precedes(first.locale, second.locale)
    ||| first.key == second.key && first.locale == second.locale && text::precedes(
        first.uri,
        second.uri,
    )
}

impl Ranked for DictionaryEntry {
    open spec fn ahead(first: EntryView, second: EntryView) -> bool {
        entry_ahead(first, second)
    }

    proof fn ahead_one_way(first: EntryView, second: EntryView) {
        text::precedes_total(first.key, second.key);
        text::precedes_total(first.locale, second.locale);
        text::precedes_total(first.uri, second.uri);
    }

    proof fn ahead_through(first: EntryView, second: EntryView, third: EntryView) {
        text::precedes_total(first.key, second.key);
        text::precedes_total(second.key, third.key);
        text::precedes_total(first.key, third.key);
        text::precedes_total(first.locale, second.locale);
        text::precedes_total(second.locale, third.locale);
        text::precedes_total(first.locale, third.locale);
        text::precedes_total(first.uri, second.uri);
        text::precedes_total(second.uri, third.uri);
        text::precedes_total(first.uri, third.uri);
        if text::precedes(first.key, second.key) && text::precedes(second.key, third.key) {
            text::precedes_transitive(first.key, second.key, third.key);
        }
        if text::precedes(first.locale, second.locale) && text::precedes(
            second.locale,
            third.locale,
        ) {
            text::precedes_transitive(first.locale, second.locale, third.locale);
        }
        if text::precedes(first.uri, second.uri) && text::precedes(second.uri, third.uri) {
            text::precedes_transitive(first.uri, second.uri, third.uri);
        }
    }

    fn is_ahead(&self, other: &Self) -> (found: bool) {
        proof {
            text::precedes_irreflexive(self.key@);
            text::precedes_irreflexive(self.locale@);
        }
        if !self.key.same(&other.key) {
            return text::less(self.key.as_str(), other.key.as_str());
        }
        if !text::same(self.locale.as_str(), other.locale.as_str()) {
            return text::less(self.locale.as_str(), other.locale.as_str());
        }
        text::less(self.uri.as_str(), other.uri.as_str())
    }
}

impl Keyed for DictionaryEntry {
    open spec fn key_of(value: EntryView) -> Seq<char> {
        value.key
    }

    proof fn ahead_by_key(first: EntryView, second: EntryView) {
    }

    fn key(&self) -> (key: &CanonicalKey) {
        &self.key
    }
}

/// Why a text is no dictionary.
#[derive(Debug)]
pub enum DictionaryError {
    InvalidJson(JsonFault),
    Parser,
}

/// What a `DictionaryError` holds.
pub enum DictionaryErrorView {
    InvalidJson(json::JsonFaultView),
    Parser,
}

impl DeepView for DictionaryError {
    type V = DictionaryErrorView;

    open spec fn deep_view(&self) -> DictionaryErrorView {
        match self {
            DictionaryError::InvalidJson(fault) => DictionaryErrorView::InvalidJson(
                fault.deep_view(),
            ),
            DictionaryError::Parser => DictionaryErrorView::Parser,
        }
    }
}

/// The message of a dictionary error.
pub open spec fn error_text(error: DictionaryErrorView) -> Seq<char> {
    match error {
        DictionaryErrorView::InvalidJson(fault) => "dictionary is not valid JSON: "@
            + fault.message,
        DictionaryErrorView::Parser => "could not initialize the JSON parser"@,
    }
}

impl DictionaryError {
    /// The message for a reader.
    pub fn message(&self) -> (text: String)
        ensures
            text@ == error_text(self.deep_view()),
    {
        match self {
            DictionaryError::InvalidJson(fault) => {
                let mut text = "dictionary is not valid JSON: ".to_owned();
                text.append(fault.message.as_str());
                text
            },
            DictionaryError::Parser => "could not initialize the JSON parser".to_owned(),
        }
    }
}

/// A dictionary with its syntax tree, and with the strings that nodes of it are.
pub struct DictionaryFile<'a> {
    pub uri: &'a str,
    pub locale: &'a str,
    pub separator: &'a str,
    pub nodes: &'a [SyntaxNode],
    pub strings: &'a [Option<String>],
}

/// What a `DictionaryFile` holds.
pub struct DictionaryView {
    pub uri: Seq<char>,
    pub locale: Seq<char>,
    pub separator: Seq<char>,
    pub tree: Seq<syntax::NodeView>,
    pub strings: Seq<Option<Seq<char>>>,
}

impl<'a> DeepView for DictionaryFile<'a> {
    type V = DictionaryView;

    open spec fn deep_view(&self) -> DictionaryView {
        DictionaryView {
            uri: self.uri@,
            locale: self.locale@,
            separator: self.separator@,
            tree: self.nodes.deep_view(),
            strings: self.strings.deep_view(),
        }
    }
}

impl DictionaryView {
    /// The string that node `i` is, where it is one.
    pub open spec fn string_at(self, i: int) -> Option<Seq<char>> {
        if i < self.strings.len() {
            self.strings[i]
        } else {
            None
        }
    }

    /// The key and the value of the pair `i`, where the key is a string.
    pub open spec fn pair(self, i: int) -> Option<(int, Seq<char>, int)> {
        if self.tree[i].kind != "pair"@ {
            None
        } else {
            match (
                syntax::field_child(self.tree, i, "key"@),
                syntax::field_child(self.tree, i, "value"@),
            ) {
                (Some(name), Some(value)) => match self.string_at(name) {
                    Some(segment) => Some((name, segment, value)),
                    None => None,
                },
                _ => None,
            }
        }
    }

    /// The entry for the value at `value`, under the segments of `path`: of an object, or of a
    /// string.
    pub open spec fn entry(self, name: int, value: int, path: Seq<Seq<char>>) -> Option<EntryView> {
        let key = search::joined(path, self.separator);
        let kind = if self.tree[value].kind == "object"@ {
            EntryKind::Object
        } else {
            EntryKind::Leaf
        };
        let translation = if self.tree[value].kind == "string"@ {
            self.string_at(value)
        } else {
            None
        };
        if key::is_key(key, self.separator) && (kind == EntryKind::Object || translation is Some) {
            Some(
                EntryView {
                    uri: self.uri,
                    namespace: None,
                    key,
                    locale: self.locale,
                    value: translation,
                    key_range: syntax::inner_range(self.tree[name]),
                    value_range: (self.tree[value].start, self.tree[value].end),
                    kind,
                },
            )
        } else {
            None
        }
    }

    /// The entries of the value `i`, whose key has the segments of `path`.
    pub open spec fn entries_in(self, i: int, path: Seq<Seq<char>>) -> Seq<EntryView>
        decreases 2 * (self.tree.len() - i),
    {
        if i < self.tree.len() && self.tree[i].kind == "object"@ {
            self.entries_inside(i, i + 1, path)
        } else {
            Seq::empty()
        }
    }

    /// The entries of the members of the object `p` from node `j` on.
    pub open spec fn entries_inside(self, p: int, j: int, path: Seq<Seq<char>>) -> Seq<EntryView>
        decreases 2 * (self.tree.len() - j) + 1,
    {
        if syntax::closed_at(self.tree, p, j) {
            Seq::empty()
        } else {
            let rest = self.entries_inside(p, j + 1, path);
            if syntax::child_at(self.tree, p, j) && self.tree[j].named {
                match self.pair(j) {
                    None => rest,
                    Some((name, segment, value)) => {
                        proof {
                            syntax::lemma_field_from(self.tree, j, "value"@, j + 1);
                        }
                        let below = path.push(segment);
                        if j < value {
                            syntax::listed(self.entry(name, value, below)) + self.entries_in(
                                value,
                                below,
                            ) + rest
                        } else {
                            rest
                        }
                    },
                }
            } else {
                rest
            }
        }
    }

    /// The entries of the dictionary.
    pub open spec fn entries(self) -> Seq<EntryView> {
        let top = syntax::named_children(self.tree, 0);
        self.entries_in(
            if top.len() > 0 {
                top[0]
            } else {
                0
            },
            Seq::empty(),
        )
    }
}

impl<'a> DictionaryFile<'a> {
    fn is_kind(&self, i: usize, kind: &str) -> (found: bool)
        requires
            i < self.nodes@.len(),
        ensures
            found == (self.deep_view().tree[i as int].kind == kind@),
    {
        assert(self.nodes.deep_view()[i as int] == self.nodes@[i as int].deep_view());
        syntax::is_kind(&self.nodes[i], kind)
    }

    fn string_at(&self, i: usize) -> (value: Option<String>)
        requires
            i < self.nodes@.len(),
        ensures
            value.deep_view() == self.deep_view().string_at(i as int),
    {
        assert(self.strings.deep_view().len() == self.strings@.len());
        if i < self.strings.len() {
            assert(self.strings.deep_view()[i as int] == self.strings@[i as int].deep_view());
            text::copy(&self.strings[i])
        } else {
            None
        }
    }

    fn pair(&self, i: usize) -> (found: Option<(usize, String, usize)>)
        requires
            i < self.nodes@.len(),
        ensures
            found is Some == self.deep_view().pair(i as int) is Some,
            found matches Some((name, segment, value)) ==> self.deep_view().pair(i as int) == Some(
                (name as int, segment@, value as int),
            ) && i < name < self.nodes@.len() && i < value < self.nodes@.len(),
    {
        if !self.is_kind(i, "pair") {
            return None;
        }
        match syntax::child_by_field(self.nodes, i, "key") {
            None => None,
            Some(name) => match syntax::child_by_field(self.nodes, i, "value") {
                None => None,
                Some(value) => match self.string_at(name) {
                    None => None,
                    Some(segment) => Some((name, segment, value)),
                },
            },
        }
    }

    fn entry(&self, name: usize, value: usize, path: &[String]) -> (found: Option<DictionaryEntry>)
        requires
            name < self.nodes@.len(),
            value < self.nodes@.len(),
        ensures
            found.deep_view() == self.deep_view().entry(
                name as int,
                value as int,
                path.deep_view(),
            ),
    {
        assert(self.nodes.deep_view()[name as int] == self.nodes@[name as int].deep_view());
        assert(self.nodes.deep_view()[value as int] == self.nodes@[value as int].deep_view());
        let joined = search::join(path, self.separator);
        match CanonicalKey::new(joined.as_str(), self.separator) {
            None => None,
            Some(key) => {
                let kind = if self.is_kind(value, "object") {
                    EntryKind::Object
                } else {
                    EntryKind::Leaf
                };
                let translation = if self.is_kind(value, "string") {
                    self.string_at(value)
                } else {
                    None
                };
                if kind == EntryKind::Object || translation.is_some() {
                    Some(
                        DictionaryEntry {
                            uri: self.uri.to_owned(),
                            namespace: None,
                            key,
                            locale: self.locale.to_owned(),
                            value: translation,
                            key_range: syntax::inside(&self.nodes[name]),
                            value_range: ByteRange::new(
                                self.nodes[value].start,
                                self.nodes[value].end,
                            ),
                            kind,
                        },
                    )
                } else {
                    None
                }
            },
        }
    }

    /// Adds the entries of the value `i`, whose key has the segments of `path`.
    fn visit_value(&self, i: usize, path: &mut Vec<String>, out: &mut Vec<DictionaryEntry>)
        requires
            i < self.nodes@.len(),
        ensures
            final(path).deep_view() == old(path).deep_view(),
            final(out).deep_view() == old(out).deep_view() + self.deep_view().entries_in(
                i as int,
                old(path).deep_view(),
            ),
        decreases self.nodes@.len() - i,
    {
        let ghost view = self.deep_view();
        let ghost above = path.deep_view();
        let ghost front = out.deep_view();
        if !self.is_kind(i, "object") {
            assert(front + Seq::<EntryView>::empty() =~= front);
            return;
        }
        let nodes = self.nodes;
        let total: usize = nodes.len();
        let mut j: usize = i + 1;
        while j < total && nodes[j].depth > nodes[i].depth
            invariant
                i < j <= total,
                nodes == self.nodes,
                total == nodes@.len(),
                view == self.deep_view(),
                path.deep_view() == above,
                front + view.entries_in(i as int, above) == out.deep_view() + view.entries_inside(
                    i as int,
                    j as int,
                    above,
                ),
            decreases total - j,
        {
            assert(view.tree[j as int] == nodes@[j as int].deep_view());
            assert(view.tree[i as int] == nodes@[i as int].deep_view());
            let ghost so_far = out.deep_view();
            let ghost rest = view.entries_inside(i as int, j + 1, above);
            if nodes[j].depth - 1 == nodes[i].depth && nodes[j].named {
                if let Some((name, segment, value)) = self.pair(j) {
                    let ghost below = above.push(segment@);
                    path.push(segment);
                    assert(path.deep_view() =~= below);
                    let entry = self.entry(name, value, path);
                    let ghost first = syntax::listed(entry.deep_view());
                    if let Some(entry) = entry {
                        out.push(entry);
                    }
                    assert(out.deep_view() =~= so_far + first);
                    self.visit_value(value, path, out);
                    let ghost whole = path.deep_view();
                    path.pop();
                    assert(path.deep_view() =~= whole.drop_last());
                    assert(below.drop_last() =~= above);
                    assert(so_far + (first + view.entries_in(value as int, below) + rest)
                        =~= out.deep_view() + rest);
                }
            }
            j += 1;
        }
        assert(syntax::closed_at(view.tree, i as int, j as int)) by {
            if j < nodes@.len() {
                assert(view.tree[j as int] == nodes@[j as int].deep_view());
                assert(view.tree[i as int] == nodes@[i as int].deep_view());
            }
        }
        assert(out.deep_view() + Seq::<EntryView>::empty() =~= out.deep_view());
    }

    /// The entries of the dictionary.
    pub fn entries(&self) -> (entries: Vec<DictionaryEntry>)
        ensures
            entries.deep_view() == self.deep_view().entries(),
    {
        let mut entries: Vec<DictionaryEntry> = Vec::new();
        assert(entries.deep_view() =~= Seq::<EntryView>::empty());
        if self.nodes.len() == 0 {
            return entries;
        }
        let top = syntax::named_children_of(self.nodes, 0);
        assert(syntax::indices(top@).len() == top@.len());
        assert(top@.len() > 0 ==> syntax::indices(top@)[0] == top@[0]);
        let value: usize = if top.len() > 0 {
            top[0]
        } else {
            0
        };
        let mut path: Vec<String> = Vec::new();
        assert(path.deep_view() =~= Seq::<Seq<char>>::empty());
        self.visit_value(value, &mut path, &mut entries);
        assert(entries.deep_view() =~= self.deep_view().entries());
        entries
    }
}

/// Why `text` is no dictionary, given what is wrong with it as JSON and whether it has a tree.
pub open spec fn parse_fault(
    fault: Option<json::JsonFaultView>,
    tree: Option<Seq<syntax::NodeView>>,
) -> Option<DictionaryErrorView> {
    match fault {
        Some(fault) => Some(DictionaryErrorView::InvalidJson(fault)),
        None => if tree is None {
            Some(DictionaryErrorView::Parser)
        } else {
            None
        },
    }
}

/// The error of a result, where it is one.
pub open spec fn error_of<T>(result: Result<T, DictionaryError>) -> Option<DictionaryErrorView> {
    match result {
        Ok(_) => None,
        Err(error) => Some(error.deep_view()),
    }
}

/// The entries of a dictionary, given its tree; none where it has none.
pub open spec fn entries_of(
    uri: Seq<char>,
    locale: Seq<char>,
    text: Seq<char>,
    separator: Seq<char>,
    tree: Option<Seq<syntax::NodeView>>,
) -> Seq<EntryView> {
    match tree {
        Some(tree) => (DictionaryView {
            uri,
            locale,
            separator,
            tree,
            strings: syntax::strings_of(tree, text),
        }).entries(),
        None => Seq::empty(),
    }
}

/// The entries of a dictionary.
pub fn parse_dictionary(uri: &str, locale: &str, text: &str, separator: &str) -> (parsed: Result<
    Vec<DictionaryEntry>,
    DictionaryError,
>)
    ensures
        error_of(parsed) == parse_fault(json::fault(text@), syntax::json_tree(text@)),
        parsed matches Ok(entries) ==> entries.deep_view() == entries_of(
            uri@,
            locale@,
            text@,
            separator@,
            syntax::json_tree(text@),
        ),
{
    if let Some(fault) = json::find_fault(text) {
        return Err(DictionaryError::InvalidJson(fault));
    }
    match syntax::parse_json(text) {
        None => Err(DictionaryError::Parser),
        Some(nodes) => {
            let strings = syntax::read_strings(&nodes, text);
            let file = DictionaryFile { uri, locale, separator, nodes: &nodes, strings: &strings };
            Ok(file.entries())
        },
    }
}

/// The entries whose keys belong to none of the ignored scopes.
pub open spec fn without_ignored(
    entries: Seq<EntryView>,
    scopes: Seq<Seq<char>>,
    separator: Seq<char>,
) -> Seq<EntryView> {
    sort::kept(entries, |entry: EntryView| !key::ignored(scopes, entry.key, separator))
}

/// The entries of a dictionary, without those in ignored scopes.
pub fn parse_dictionary_ignoring(
    uri: &str,
    locale: &str,
    text: &str,
    separator: &str,
    ignored_scopes: &[String],
) -> (parsed: Result<Vec<DictionaryEntry>, DictionaryError>)
    ensures
        error_of(parsed) == parse_fault(json::fault(text@), syntax::json_tree(text@)),
        parsed matches Ok(entries) ==> entries.deep_view() == without_ignored(
            entries_of(uri@, locale@, text@, separator@, syntax::json_tree(text@)),
            ignored_scopes.deep_view(),
            separator@,
        ),
{
    match parse_dictionary(uri, locale, text, separator) {
        Err(error) => Err(error),
        Ok(entries) => Ok(drop_ignored(entries, ignored_scopes, separator)),
    }
}

/// The entries whose keys belong to none of the ignored scopes.
pub fn drop_ignored(
    entries: Vec<DictionaryEntry>,
    ignored_scopes: &[String],
    separator: &str,
) -> (left: Vec<DictionaryEntry>)
    ensures
        left.deep_view() == without_ignored(
            entries.deep_view(),
            ignored_scopes.deep_view(),
            separator@,
        ),
{
    let ghost all = entries.deep_view();
    let ghost keep = |entry: EntryView|
        !key::ignored(ignored_scopes.deep_view(), entry.key, separator@);
    let mut left: Vec<DictionaryEntry> = Vec::new();
    assert(left.deep_view() =~= Seq::<EntryView>::empty());
    assert(all.take(0) =~= Seq::<EntryView>::empty());
    let mut n: usize = 0;
    while n < entries.len()
        invariant
            n <= entries@.len(),
            all == entries.deep_view(),
            keep == (|entry: EntryView|
                !key::ignored(ignored_scopes.deep_view(), entry.key, separator@)),
            left.deep_view() == sort::kept(all.take(n as int), keep),
        decreases entries@.len() - n,
    {
        let ghost before = left.deep_view();
        assert(all[n as int] == entries@[n as int].deep_view());
        assert(all.take(n + 1) =~= all.take(n as int).push(all[n as int]));
        proof {
            sort::lemma_kept_push(all.take(n as int), all[n as int], keep);
        }
        if !key::is_ignored_key(ignored_scopes, entries[n].key.as_str(), separator) {
            left.push(entries[n].clone());
            assert(left.deep_view() =~= before.push(all[n as int]));
        }
        n += 1;
    }
    assert(all.take(n as int) =~= all);
    left
}

} // verus!
