//! What the files of a workspace say together: all keys, and all places that use them.
use crate::dictionary;
use crate::dictionary::{DictionaryEntry, EntryKind};
use crate::key;
use crate::key::CanonicalKey;
use crate::lookup;
use crate::path::Platform;
use crate::sort;
use crate::source;
use crate::source::{OccurrenceKind, ScopeBinding, SourceOccurrence};
use crate::text;
use crate::urls;
use vstd::prelude::*;

verus! {

/// What one file adds to the index.
#[derive(Debug)]
pub struct FileContribution {
    pub uri: String,
    pub text: String,
    pub version: Option<i32>,
    pub dictionaries: Vec<DictionaryEntry>,
    pub occurrences: Vec<SourceOccurrence>,
    pub ignored_occurrences: Vec<SourceOccurrence>,
    pub bindings: Vec<ScopeBinding>,
}

/// What a `FileContribution` holds.
pub struct FileView {
    pub uri: Seq<char>,
    pub text: Seq<char>,
    pub version: Option<i32>,
    pub dictionaries: Seq<dictionary::EntryView>,
    pub occurrences: Seq<source::OccurrenceView>,
    pub ignored_occurrences: Seq<source::OccurrenceView>,
    pub bindings: Seq<source::BindingView>,
}

impl DeepView for FileContribution {
    type V = FileView;

    open spec fn deep_view(&self) -> FileView {
        FileView {
            uri: self.uri@,
            text: self.text@,
            version: self.version,
            dictionaries: self.dictionaries.deep_view(),
            occurrences: self.occurrences.deep_view(),
            ignored_occurrences: self.ignored_occurrences.deep_view(),
            bindings: self.bindings.deep_view(),
        }
    }
}

/// The entries of the first `n` files.
pub open spec fn entries_within(files: Seq<FileView>, n: int) -> Seq<dictionary::EntryView>
    decreases n,
{
    if n <= 0 {
        Seq::empty()
    } else {
        entries_within(files, n - 1) + files[n - 1].dictionaries
    }
}

/// The occurrences in the first `n` files.
pub open spec fn occurrences_within(files: Seq<FileView>, n: int) -> Seq<source::OccurrenceView>
    decreases n,
{
    if n <= 0 {
        Seq::empty()
    } else {
        occurrences_within(files, n - 1) + files[n - 1].occurrences
    }
}

/// The ignored occurrences in the first `n` files.
pub open spec fn ignored_within(files: Seq<FileView>, n: int) -> Seq<source::OccurrenceView>
    decreases n,
{
    if n <= 0 {
        Seq::empty()
    } else {
        ignored_within(files, n - 1) + files[n - 1].ignored_occurrences
    }
}

/// Where the file `uri` stands among `files[from..]`.
pub open spec fn place_of(files: Seq<FileView>, uri: Seq<char>, from: int) -> Option<int>
    decreases files.len() - from,
{
    if from >= files.len() {
        None
    } else if files[from].uri == uri {
        Some(from)
    } else {
        place_of(files, uri, from + 1)
    }
}

pub proof fn lemma_file_uri(files: Seq<FileView>, uri: Seq<char>, from: int)
    requires
        0 <= from,
    ensures
        place_of(files, uri, from) matches Some(i) ==> from <= i < files.len() && files[i].uri
            == uri,
    decreases files.len() - from,
{
    if from < files.len() && files[from].uri != uri {
        lemma_file_uri(files, uri, from + 1);
    }
}

/// The files with one more, in the place of the file of the same URI where there is one.
pub open spec fn with_file(files: Seq<FileView>, file: FileView) -> Seq<FileView> {
    match place_of(files, file.uri, 0) {
        Some(i) => files.update(i, file),
        None => files.push(file),
    }
}

/// The files without that of a URI.
pub open spec fn without_file(files: Seq<FileView>, uri: Seq<char>) -> Seq<FileView> {
    match place_of(files, uri, 0) {
        Some(i) => files.remove(i),
        None => files,
    }
}

/// The first `n` files, each URI once.
pub open spec fn distinct_files(files: Seq<FileView>, n: int) -> Seq<FileView>
    decreases n,
{
    if n <= 0 {
        Seq::empty()
    } else {
        with_file(distinct_files(files, n - 1), files[n - 1])
    }
}

/// Whether no two files have the same URI.
pub open spec fn are_distinct(files: Seq<FileView>) -> bool {
    forall|i: int, j: int| 0 <= i < j < files.len() ==> files[i].uri != files[j].uri
}

/// What files on disk are told apart by on a platform, one by one.
pub open spec fn disk_keys(files: Seq<FileView>, platform: Platform) -> Seq<Seq<char>> {
    Seq::new(files.len(), |i: int| urls::disk_key(files[i].uri, platform))
}

/// The first place of a key from `from` on.
pub open spec fn key_place(keys: Seq<Seq<char>>, key: Seq<char>, from: int) -> Option<int>
    decreases keys.len() - from,
{
    if from >= keys.len() {
        None
    } else if keys[from] == key {
        Some(from)
    } else {
        key_place(keys, key, from + 1)
    }
}

/// The files on disk with one more, in the place of the same file where it is there.
pub open spec fn with_disk_file(files: Seq<FileView>, file: FileView, platform: Platform) -> Seq<
    FileView,
> {
    let key = urls::disk_key(file.uri, platform);
    match key_place(disk_keys(files, platform), key, 0) {
        Some(i) => files.update(i, file),
        None => files.push(file),
    }
}

/// Whether `keys` are those that files are told apart by, one by one.
pub open spec fn are_keys(
    files: Seq<FileView>,
    platform: Platform,
    keys: Seq<Seq<char>>,
) -> bool {
    &&& keys.len() == files.len()
    &&& forall|i: int|
        0 <= i < keys.len() ==> urls::is_key(files[i].uri, platform, #[trigger] keys[i])
}

/// The URI of the first file from `from` on with a key, or else `uri`.
pub open spec fn uri_with(
    files: Seq<FileView>,
    keys: Seq<Seq<char>>,
    key: Seq<char>,
    uri: Seq<char>,
    from: int,
) -> Seq<char>
    decreases files.len() - from,
{
    if from >= files.len() || from >= keys.len() {
        uri
    } else if keys[from] == key {
        files[from].uri
    } else {
        uri_with(files, keys, key, uri, from + 1)
    }
}

/// Whether `held` is the URI under which files have the file that an editor calls `uri`; `uri`
/// itself where they do not have it.
pub open spec fn is_held(
    files: Seq<FileView>,
    uri: Seq<char>,
    platform: Platform,
    held: Seq<char>,
) -> bool {
    if platform == Platform::Posix || place_of(files, uri, 0) is Some {
        held == uri
    } else {
        exists|key: Seq<char>, keys: Seq<Seq<char>>|
            urls::is_key(uri, platform, key) && are_keys(files, platform, keys) && held
                == #[trigger] uri_with(files, keys, key, uri, 0)
    }
}

/// Whether the occurrence makes every key under its own one used, with `key` among them.
pub open spec fn covers(
    occurrence: source::OccurrenceView,
    key: Seq<char>,
    separator: Seq<char>,
) -> bool {
    occurrence.kind == OccurrenceKind::DynamicScope && (occurrence.key == key || key::is_below(
        key,
        occurrence.key,
        separator,
    ))
}

/// Whether the occurrence uses the leaf `key`.
pub open spec fn uses(
    occurrence: source::OccurrenceView,
    key: Seq<char>,
    separator: Seq<char>,
) -> bool {
    ||| occurrence.key == key && occurrence.kind != OccurrenceKind::ScopeDeclaration
    ||| covers(occurrence, key, separator)
}

/// Whether one of the occurrences uses the leaf `key`.
pub open spec fn is_used(
    occurrences: Seq<source::OccurrenceView>,
    key: Seq<char>,
    separator: Seq<char>,
) -> bool {
    exists|i: int| 0 <= i < occurrences.len() && uses(#[trigger] occurrences[i], key, separator)
}

/// The keys below `scope` that have a translation among the first `n` entries.
pub open spec fn leaf_keys(
    entries: Seq<dictionary::EntryView>,
    scope: Seq<char>,
    separator: Seq<char>,
    n: int,
) -> Seq<Seq<char>>
    decreases n,
{
    if n <= 0 {
        Seq::empty()
    } else {
        let front = leaf_keys(entries, scope, separator, n - 1);
        let entry = entries[n - 1];
        if entry.kind == EntryKind::Leaf && key::is_below(entry.key, scope, separator)
            && !front.contains(entry.key) {
            front.push(entry.key)
        } else {
            front
        }
    }
}

/// Whether the occurrence refers to `scope`: it declares the scope, makes it dynamic, or names a
/// key in it, at any depth or directly.
pub open spec fn refers_to(
    occurrence: source::OccurrenceView,
    scope: Seq<char>,
    separator: Seq<char>,
    at_any_depth: bool,
) -> bool {
    ||| occurrence.kind == OccurrenceKind::ScopeDeclaration && occurrence.key == scope
    ||| covers(occurrence, scope, separator)
    ||| if at_any_depth {
        key::is_below(occurrence.key, scope, separator)
    } else {
        key::parent_of(occurrence.key, separator) == Some(scope)
    }
}

/// The occurrences that refer to a scope; those deep in it count while it has no more than
/// `limit` translations.
pub open spec fn scope_references(
    entries: Seq<dictionary::EntryView>,
    occurrences: Seq<source::OccurrenceView>,
    scope: Seq<char>,
    separator: Seq<char>,
    limit: usize,
) -> Seq<source::OccurrenceView> {
    let at_any_depth = leaf_keys(entries, scope, separator, entries.len() as int).len() <= limit;
    sort::kept(
        occurrences,
        |occurrence: source::OccurrenceView|
            refers_to(occurrence, scope, separator, at_any_depth),
    )
}

/// The first of `occurrences[from..]` that a cursor at `offset` touches.
pub open spec fn touched(
    occurrences: Seq<source::OccurrenceView>,
    offset: usize,
    from: int,
) -> Option<source::OccurrenceView>
    decreases occurrences.len() - from,
{
    if from >= occurrences.len() {
        None
    } else if occurrences[from].range.0 <= offset <= occurrences[from].range.1 {
        Some(occurrences[from])
    } else {
        touched(occurrences, offset, from + 1)
    }
}

/// Of the first `n` entries whose keys a cursor at `offset` touches, the last of those with the
/// longest key.
pub open spec fn deepest(entries: Seq<dictionary::EntryView>, offset: usize, n: int) -> Option<
    dictionary::EntryView,
>
    decreases n,
{
    if n <= 0 {
        None
    } else {
        let best = deepest(entries, offset, n - 1);
        let entry = entries[n - 1];
        if !(entry.key_range.0 <= offset <= entry.key_range.1) {
            best
        } else if best matches Some(other) && text::byte_len(other.key) > text::byte_len(
            entry.key,
        ) {
            best
        } else {
            Some(entry)
        }
    }
}

/// What an `IndexSnapshot` holds.
pub struct SnapshotView {
    pub generation: u64,
    pub files: Seq<FileView>,
}

impl SnapshotView {
    /// The file of a URI.
    pub open spec fn file(self, uri: Seq<char>) -> Option<FileView> {
        match place_of(self.files, uri, 0) {
            Some(i) => Some(self.files[i]),
            None => None,
        }
    }

    /// All entries of all dictionaries, by key, locale and file.
    pub open spec fn entries(self) -> Seq<dictionary::EntryView> {
        sort::sorted::<DictionaryEntry>(entries_within(self.files, self.files.len() as int))
    }

    /// All occurrences in all files, by key.
    pub open spec fn occurrences(self) -> Seq<source::OccurrenceView> {
        sort::sorted::<SourceOccurrence>(occurrences_within(self.files, self.files.len() as int))
    }

    /// All ignored occurrences in all files.
    pub open spec fn ignored(self) -> Seq<source::OccurrenceView> {
        ignored_within(self.files, self.files.len() as int)
    }

    /// The entries of a namespace.
    pub open spec fn entries_in(self, namespace: Option<Seq<char>>) -> Seq<dictionary::EntryView> {
        sort::kept(
            self.entries(),
            |entry: dictionary::EntryView| entry.namespace == namespace,
        )
    }

    /// The occurrences of keys of a namespace.
    pub open spec fn occurrences_in(self, namespace: Option<Seq<char>>) -> Seq<
        source::OccurrenceView,
    > {
        sort::kept(
            self.occurrences(),
            |occurrence: source::OccurrenceView| occurrence.namespace == namespace,
        )
    }

    /// The entries of a key in a namespace.
    pub open spec fn entries_of(self, namespace: Option<Seq<char>>, key: Seq<char>) -> Seq<
        dictionary::EntryView,
    > {
        lookup::with_key::<DictionaryEntry>(self.entries_in(namespace), key)
    }

    /// The occurrences of a key in a namespace.
    pub open spec fn occurrences_of(self, namespace: Option<Seq<char>>, key: Seq<char>) -> Seq<
        source::OccurrenceView,
    > {
        lookup::with_key::<SourceOccurrence>(self.occurrences_in(namespace), key)
    }
}

/// The files of a workspace at one time, with their entries and occurrences in order.
#[derive(Debug)]
pub struct IndexSnapshot {
    generation: u64,
    files: Vec<FileContribution>,
    dictionaries: Vec<DictionaryEntry>,
    occurrences: Vec<SourceOccurrence>,
}

impl DeepView for IndexSnapshot {
    type V = SnapshotView;

    closed spec fn deep_view(&self) -> SnapshotView {
        SnapshotView { generation: self.generation, files: self.files.deep_view() }
    }
}

impl IndexSnapshot {
    #[verifier::type_invariant]
    closed spec fn is_in_order(&self) -> bool {
        &&& self.dictionaries.deep_view() == self.deep_view().entries()
        &&& self.occurrences.deep_view() == self.deep_view().occurrences()
        &&& are_distinct(self.deep_view().files)
    }

    /// The index of `files`, a later one in place of an earlier one of the same URI.
    pub fn rebuild(generation: u64, files: Vec<FileContribution>) -> (snapshot: Self)
        ensures
            snapshot.deep_view() == (SnapshotView {
                generation,
                files: distinct_files(files.deep_view(), files@.len() as int),
            }),
            are_distinct(snapshot.deep_view().files),
    {
        proof {
            crate::laws::files_are_distinct(files.deep_view(), files@.len() as int);
        }
        let files = keep_distinct(files);
        let ghost all = files.deep_view();
        let mut entries: Vec<DictionaryEntry> = Vec::new();
        let mut found: Vec<SourceOccurrence> = Vec::new();
        assert(entries.deep_view() =~= Seq::<dictionary::EntryView>::empty());
        assert(found.deep_view() =~= Seq::<source::OccurrenceView>::empty());
        let mut n: usize = 0;
        while n < files.len()
            invariant
                n <= files@.len(),
                all == files.deep_view(),
                entries.deep_view() == entries_within(all, n as int),
                found.deep_view() == occurrences_within(all, n as int),
            decreases files@.len() - n,
        {
            assert(all[n as int] == files@[n as int].deep_view());
            let mut more = copy_entries(&files[n].dictionaries);
            let ghost first = entries.deep_view();
            let ghost second = more.deep_view();
            entries.append(&mut more);
            assert(entries.deep_view() =~= first + second);
            let mut also = copy_occurrences(&files[n].occurrences);
            let ghost third = found.deep_view();
            let ghost fourth = also.deep_view();
            found.append(&mut also);
            assert(found.deep_view() =~= third + fourth);
            n += 1;
        }
        let dictionaries = sort::sort(entries);
        let occurrences = sort::sort(found);
        IndexSnapshot { generation, files, dictionaries, occurrences }
    }
}

impl IndexSnapshot {
    /// How often the index has changed.
    pub fn generation(&self) -> (generation: u64)
        ensures
            generation == self.deep_view().generation,
    {
        self.generation
    }

    /// The files of the index, no two of which have the same URI.
    pub fn files(&self) -> (files: &[FileContribution])
        ensures
            files.deep_view() == self.deep_view().files,
            are_distinct(self.deep_view().files),
    {
        proof {
            use_type_invariant(self);
        }
        lookup::slice_of(&self.files)
    }

    /// The URI of the file with a key, given the keys of all files, or else `uri`.
    pub fn keyed_uri(&self, uri: &str, key: &str, keys: &[String]) -> (held: String)
        ensures
            held@ == uri_with(self.deep_view().files, keys.deep_view(), key@, uri@, 0),
    {
        let ghost all = self.files.deep_view();
        let ghost names = keys.deep_view();
        let mut n: usize = 0;
        while n < self.files.len() && n < keys.len()
            invariant
                n <= self.files@.len(),
                n <= keys@.len(),
                all == self.files.deep_view(),
                names == keys.deep_view(),
                uri_with(all, names, key@, uri@, 0) == uri_with(
                    all,
                    names,
                    key@,
                    uri@,
                    n as int,
                ),
            decreases self.files@.len() - n,
        {
            assert(all[n as int] == self.files@[n as int].deep_view());
            assert(names[n as int] == keys@[n as int]@);
            if text::same(keys[n].as_str(), key) {
                return self.files[n].uri.clone();
            }
            n += 1;
        }
        assert(all.len() == self.files@.len() && names.len() == keys@.len());
        uri.to_owned()
    }

    /// The URI under which the index has the file that an editor calls `uri` on a platform; `uri`
    /// itself where it does not have it.
    pub fn held_uri(&self, uri: &str, platform: Platform) -> (held: String)
        ensures
            is_held(self.deep_view().files, uri@, platform, held@),
    {
        let is_posix: bool = match platform {
            Platform::Posix => true,
            Platform::Windows => false,
        };
        if is_posix || find_file(&self.files, uri).is_some() {
            return uri.to_owned();
        }
        let key = urls::normalized_uri(uri, platform);
        let ghost all = self.files.deep_view();
        let mut keys: Vec<String> = Vec::new();
        let mut n: usize = 0;
        assert(all.len() == self.files@.len());
        while n < self.files.len()
            invariant
                n <= self.files@.len(),
                all == self.files.deep_view(),
                keys@.len() == n,
                forall|i: int|
                    0 <= i < n ==> urls::is_key(
                        all[i].uri,
                        platform,
                        #[trigger] keys.deep_view()[i],
                    ),
            decreases self.files@.len() - n,
        {
            assert(all[n as int] == self.files@[n as int].deep_view());
            let ghost before = keys.deep_view();
            let next = urls::normalized_uri(self.files[n].uri.as_str(), platform);
            keys.push(next);
            assert(keys.deep_view() =~= before.push(next@));
            n += 1;
        }
        assert(are_keys(all, platform, keys.deep_view()));
        self.keyed_uri(uri, key.as_str(), &keys)
    }

    /// The files of the index, taken out of it.
    pub fn into_files(self) -> (files: Vec<FileContribution>)
        ensures
            files.deep_view() == self.deep_view().files,
    {
        self.files
    }

    fn file(&self, uri: &str) -> (file: Option<&FileContribution>)
        ensures
            file.deep_view() == self.deep_view().file(uri@),
    {
        match find_file(&self.files, uri) {
            Some(i) => {
                assert(self.files.deep_view()[i as int] == self.files@[i as int].deep_view());
                Some(&self.files[i])
            },
            None => None,
        }
    }

    /// The entries of a key.
    pub fn dictionary_entries(&self, key: &CanonicalKey) -> (entries: &[DictionaryEntry])
        ensures
            entries.deep_view() == lookup::with_key::<DictionaryEntry>(
                self.deep_view().entries(),
                key@,
            ),
    {
        proof {
            use_type_invariant(self);
            sort::sorting_orders::<DictionaryEntry>(
                entries_within(self.deep_view().files, self.deep_view().files.len() as int),
            );
        }
        lookup::find_key(lookup::slice_of(&self.dictionaries), key.as_str())
    }

    /// The entries of a key in a namespace.
    pub fn qualified_entries(&self, namespace: Option<&str>, key: &CanonicalKey) -> (entries: Vec<
        &DictionaryEntry,
    >)
        ensures
            entries.deep_view() == self.deep_view().entries_of(namespace.deep_view(), key@),
    {
        let ghost view = self.deep_view();
        let ghost wanted = namespace.deep_view();
        let ghost first = lookup::of_key::<DictionaryEntry>(key@);
        let ghost second = |entry: dictionary::EntryView| entry.namespace == wanted;
        let ghost both = |entry: dictionary::EntryView| entry.key == key@ && entry.namespace
            == wanted;
        proof {
            lookup::lemma_kept_both(view.entries(), first, second, both);
            lookup::lemma_kept_both(view.entries(), second, first, both);
            assert(lookup::with_key::<DictionaryEntry>(view.entries(), key@) == sort::kept(
                view.entries(),
                first,
            ));
            assert(view.entries_in(wanted) == sort::kept(view.entries(), second));
            assert(view.entries_of(wanted, key@) == sort::kept(view.entries_in(wanted), first));
        }
        let is_kept = |entry: &DictionaryEntry| -> (found: bool)
            ensures
                found == (entry.deep_view().namespace == namespace.deep_view()),
        { same_namespace(&entry.namespace, namespace) };
        lookup::select(self.dictionary_entries(key), is_kept, Ghost(second))
    }

    /// The entries of the keys directly in a scope.
    pub fn direct_dictionary_children(&self, scope: &CanonicalKey, separator: &str) -> (entries:
        Vec<&DictionaryEntry>)
        ensures
            entries.deep_view() == sort::kept(
                self.deep_view().entries(),
                |entry: dictionary::EntryView|
                    key::parent_of(entry.key, separator@) == Some(scope@),
            ),
    {
        proof {
            use_type_invariant(self);
        }
        let is_kept = |entry: &DictionaryEntry| -> (found: bool)
            ensures
                found == (key::parent_of(entry.key@, separator@) == Some(scope@)),
        { key_is_in(&entry.key, scope, separator) };
        lookup::select(lookup::slice_of(&self.dictionaries), is_kept, Ghost(
                |entry: dictionary::EntryView|
                    key::parent_of(entry.key, separator@) == Some(scope@),
            ))
    }

    /// The occurrences of a key.
    pub fn occurrences(&self, key: &CanonicalKey) -> (found: &[SourceOccurrence])
        ensures
            found.deep_view() == lookup::with_key::<SourceOccurrence>(
                self.deep_view().occurrences(),
                key@,
            ),
    {
        proof {
            use_type_invariant(self);
            sort::sorting_orders::<SourceOccurrence>(
                occurrences_within(self.deep_view().files, self.deep_view().files.len() as int),
            );
        }
        lookup::find_key(lookup::slice_of(&self.occurrences), key.as_str())
    }

    /// The occurrences of a key in a namespace.
    pub fn qualified_occurrences(&self, namespace: Option<&str>, key: &CanonicalKey) -> (found: Vec<
        &SourceOccurrence,
    >)
        ensures
            found.deep_view() == self.deep_view().occurrences_of(namespace.deep_view(), key@),
    {
        let ghost view = self.deep_view();
        let ghost wanted = namespace.deep_view();
        let ghost first = lookup::of_key::<SourceOccurrence>(key@);
        let ghost second = |occurrence: source::OccurrenceView| occurrence.namespace == wanted;
        let ghost both = |occurrence: source::OccurrenceView|
            occurrence.key == key@ && occurrence.namespace == wanted;
        proof {
            lookup::lemma_kept_both(view.occurrences(), first, second, both);
            lookup::lemma_kept_both(view.occurrences(), second, first, both);
            assert(lookup::with_key::<SourceOccurrence>(view.occurrences(), key@) == sort::kept(
                view.occurrences(),
                first,
            ));
            assert(view.occurrences_in(wanted) == sort::kept(view.occurrences(), second));
            assert(view.occurrences_of(wanted, key@) == sort::kept(
                view.occurrences_in(wanted),
                first,
            ));
        }
        let is_kept = |occurrence: &SourceOccurrence| -> (found: bool)
            ensures
                found == (occurrence.deep_view().namespace == namespace.deep_view()),
        { same_namespace(&occurrence.namespace, namespace) };
        lookup::select(self.occurrences(key), is_kept, Ghost(second))
    }

    /// The translations in the default locale.
    pub fn default_locale_leaf_entries(&self, default_locale: &str) -> (entries: Vec<
        &DictionaryEntry,
    >)
        ensures
            entries.deep_view() == default_leaves(self.deep_view(), default_locale@),
    {
        proof {
            use_type_invariant(self);
        }
        let is_kept = |entry: &DictionaryEntry| -> (found: bool)
            ensures
                found == (entry.locale@ == default_locale@ && entry.kind == EntryKind::Leaf),
        {
                    entry.kind == EntryKind::Leaf && text::same(
                        entry.locale.as_str(),
                        default_locale,
                    )
                };
        lookup::select(lookup::slice_of(&self.dictionaries), is_kept, Ghost(
                |entry: dictionary::EntryView|
                    entry.locale == default_locale@ && entry.kind == EntryKind::Leaf,
            ))
    }

    /// Whether a translation is used, in keys with dots.
    pub fn is_leaf_key_used(&self, key: &CanonicalKey) -> (used: bool)
        ensures
            used == is_used(self.deep_view().occurrences(), key@, "."@),
    {
        self.is_leaf_key_used_with_separator(key, ".")
    }

    /// Whether a translation is used.
    pub fn is_leaf_key_used_with_separator(&self, key: &CanonicalKey, separator: &str) -> (used:
        bool)
        ensures
            used == is_used(self.deep_view().occurrences(), key@, separator@),
    {
        proof {
            use_type_invariant(self);
        }
        let ghost all = self.deep_view().occurrences();
        let mut n: usize = 0;
        while n < self.occurrences.len()
            invariant
                n <= self.occurrences@.len(),
                all == self.occurrences.deep_view(),
                all == self.deep_view().occurrences(),
                forall|i: int| 0 <= i < n ==> !uses(#[trigger] all[i], key@, separator@),
            decreases self.occurrences@.len() - n,
        {
            assert(all[n as int] == self.occurrences@[n as int].deep_view());
            if uses_key(&self.occurrences[n], key, separator) {
                return true;
            }
            n += 1;
        }
        false
    }

    /// Whether a translation is used in its namespace.
    pub fn is_leaf_entry_used(&self, entry: &DictionaryEntry, separator: &str) -> (used: bool)
        ensures
            used == is_used(
                self.deep_view().occurrences_in(entry.deep_view().namespace),
                entry.key@,
                separator@,
            ),
    {
        let found = self.occurrences_in(text::borrowed(&entry.namespace));
        let ghost all = found.deep_view();
        let mut n: usize = 0;
        while n < found.len()
            invariant
                n <= found@.len(),
                all == found.deep_view(),
                all == self.deep_view().occurrences_in(entry.deep_view().namespace),
                forall|i: int| 0 <= i < n ==> !uses(#[trigger] all[i], entry.key@, separator@),
            decreases found@.len() - n,
        {
            assert(all[n as int] == found@[n as int].deep_view());
            if uses_key(found[n], &entry.key, separator) {
                return true;
            }
            n += 1;
        }
        false
    }

    /// The occurrences of keys of a namespace.
    pub fn occurrences_in(&self, namespace: Option<&str>) -> (found: Vec<&SourceOccurrence>)
        ensures
            found.deep_view() == self.deep_view().occurrences_in(namespace.deep_view()),
    {
        proof {
            use_type_invariant(self);
        }
        let ghost wanted = namespace.deep_view();
        let is_kept = |occurrence: &SourceOccurrence| -> (found: bool)
            ensures
                found == (occurrence.deep_view().namespace == namespace.deep_view()),
        { same_namespace(&occurrence.namespace, namespace) };
        lookup::select(lookup::slice_of(&self.occurrences), is_kept, Ghost(|occurrence: source::OccurrenceView| occurrence.namespace == wanted))
    }

    /// The entries of a namespace.
    pub fn entries_in(&self, namespace: Option<&str>) -> (found: Vec<&DictionaryEntry>)
        ensures
            found.deep_view() == self.deep_view().entries_in(namespace.deep_view()),
    {
        proof {
            use_type_invariant(self);
        }
        let ghost wanted = namespace.deep_view();
        let is_kept = |entry: &DictionaryEntry| -> (found: bool)
            ensures
                found == (entry.deep_view().namespace == namespace.deep_view()),
        { same_namespace(&entry.namespace, namespace) };
        lookup::select(lookup::slice_of(&self.dictionaries), is_kept, Ghost(|entry: dictionary::EntryView| entry.namespace == wanted))
    }

    /// The occurrences that make every key under their own one used, with `key` among them.
    pub fn dynamic_scope_occurrences(&self, key: &CanonicalKey, separator: &str) -> (found: Vec<
        &SourceOccurrence,
    >)
        ensures
            found.deep_view() == sort::kept(
                self.deep_view().occurrences(),
                |occurrence: source::OccurrenceView| covers(occurrence, key@, separator@),
            ),
    {
        proof {
            use_type_invariant(self);
        }
        let is_kept = |occurrence: &SourceOccurrence| -> (found: bool)
            ensures
                found == covers(occurrence.deep_view(), key@, separator@),
        { covers_key(occurrence, key, separator) };
        lookup::select(lookup::slice_of(&self.occurrences), is_kept, Ghost(|occurrence: source::OccurrenceView| covers(occurrence, key@, separator@)))
    }

    /// The occurrences in a namespace that make `key` used by way of a scope.
    pub fn qualified_dynamic_occurrences(
        &self,
        namespace: Option<&str>,
        key: &CanonicalKey,
        separator: &str,
    ) -> (found: Vec<&SourceOccurrence>)
        ensures
            found.deep_view() == sort::kept(
                self.deep_view().occurrences_in(namespace.deep_view()),
                |occurrence: source::OccurrenceView| covers(occurrence, key@, separator@),
            ),
    {
        proof {
            use_type_invariant(self);
        }
        let ghost wanted = namespace.deep_view();
        let ghost first = |occurrence: source::OccurrenceView| occurrence.namespace == wanted;
        let ghost second = |occurrence: source::OccurrenceView|
            covers(occurrence, key@, separator@);
        let ghost both = |occurrence: source::OccurrenceView|
            occurrence.namespace == wanted && covers(occurrence, key@, separator@);
        proof {
            lookup::lemma_kept_both(self.deep_view().occurrences(), first, second, both);
        }
        let is_kept = |occurrence: &SourceOccurrence| -> (found: bool)
            ensures
                found == (occurrence.deep_view().namespace == namespace.deep_view() && covers(
                    occurrence.deep_view(),
                    key@,
                    separator@,
                )),
        {
            same_namespace(&occurrence.namespace, namespace) && covers_key(
                occurrence,
                key,
                separator,
            )
        };
        lookup::select(lookup::slice_of(&self.occurrences), is_kept, Ghost(both))
    }

    /// The entries in a namespace of the keys directly in a scope.
    pub fn qualified_children(
        &self,
        namespace: Option<&str>,
        scope: &CanonicalKey,
        separator: &str,
    ) -> (found: Vec<&DictionaryEntry>)
        ensures
            found.deep_view() == sort::kept(
                self.deep_view().entries_in(namespace.deep_view()),
                |entry: dictionary::EntryView|
                    key::parent_of(entry.key, separator@) == Some(scope@),
            ),
    {
        proof {
            use_type_invariant(self);
        }
        let ghost wanted = namespace.deep_view();
        let ghost first = |entry: dictionary::EntryView| entry.namespace == wanted;
        let ghost second = |entry: dictionary::EntryView|
            key::parent_of(entry.key, separator@) == Some(scope@);
        let ghost both = |entry: dictionary::EntryView|
            entry.namespace == wanted && key::parent_of(entry.key, separator@) == Some(scope@);
        proof {
            lookup::lemma_kept_both(self.deep_view().entries(), first, second, both);
        }
        let is_kept = |entry: &DictionaryEntry| -> (found: bool)
            ensures
                found == (entry.deep_view().namespace == namespace.deep_view() && key::parent_of(
                    entry.key@,
                    separator@,
                ) == Some(scope@)),
        { same_namespace(&entry.namespace, namespace) && key_is_in(&entry.key, scope, separator) };
        lookup::select(lookup::slice_of(&self.dictionaries), is_kept, Ghost(both))
    }

    /// The first occurrence in a file that a cursor at `offset` touches.
    pub fn occurrence_at(&self, uri: &str, offset: usize) -> (found: Option<&SourceOccurrence>)
        ensures
            found.deep_view() == match self.deep_view().file(uri@) {
                Some(file) => touched(file.occurrences, offset, 0),
                None => None,
            },
    {
        let file = match self.file(uri) {
            Some(file) => file,
            None => {
                return None;
            },
        };
        let ghost all = file.occurrences.deep_view();
        let mut n: usize = 0;
        while n < file.occurrences.len()
            invariant
                n <= file.occurrences@.len(),
                all == file.occurrences.deep_view(),
                self.deep_view().file(uri@) == Some(file.deep_view()),
                touched(all, offset, 0) == touched(all, offset, n as int),
            decreases file.occurrences@.len() - n,
        {
            assert(all[n as int] == file.occurrences@[n as int].deep_view());
            if file.occurrences[n].range.contains(offset) {
                return Some(&file.occurrences[n]);
            }
            n += 1;
        }
        None
    }

    /// The entry in a file whose key a cursor at `offset` touches, that with the longest key.
    pub fn dictionary_at(&self, uri: &str, offset: usize) -> (found: Option<&DictionaryEntry>)
        ensures
            found.deep_view() == match self.deep_view().file(uri@) {
                Some(file) => deepest(
                    file.dictionaries,
                    offset,
                    file.dictionaries.len() as int,
                ),
                None => None,
            },
    {
        let file = match self.file(uri) {
            Some(file) => file,
            None => {
                return None;
            },
        };
        let ghost all = file.dictionaries.deep_view();
        let mut best: Option<&DictionaryEntry> = None;
        let mut n: usize = 0;
        while n < file.dictionaries.len()
            invariant
                n <= file.dictionaries@.len(),
                all == file.dictionaries.deep_view(),
                best.deep_view() == deepest(all, offset, n as int),
            decreases file.dictionaries@.len() - n,
        {
            let entry = &file.dictionaries[n];
            assert(all[n as int] == entry.deep_view());
            if entry.key_range.contains(offset) {
                let longer: bool = match best {
                    Some(other) => text::size(other.key.as_str()) > text::size(
                        entry.key.as_str(),
                    ),
                    None => false,
                };
                if !longer {
                    best = Some(entry);
                }
            }
            n += 1;
        }
        best
    }

    /// The text of a file.
    pub fn text(&self, uri: &str) -> (text: Option<&str>)
        ensures
            text.deep_view() == match self.deep_view().file(uri@) {
                Some(file) => Some(file.text),
                None => None,
            },
    {
        match self.file(uri) {
            Some(file) => Some(file.text.as_str()),
            None => None,
        }
    }

    /// The version of a file that an editor holds.
    pub fn version(&self, uri: &str) -> (version: Option<i32>)
        ensures
            version == match self.deep_view().file(uri@) {
                Some(file) => file.version,
                None => None,
            },
    {
        match self.file(uri) {
            Some(file) => file.version,
            None => None,
        }
    }

    /// The bindings of a file.
    pub fn bindings(&self, uri: &str) -> (bindings: &[ScopeBinding])
        ensures
            bindings.deep_view() == match self.deep_view().file(uri@) {
                Some(file) => file.bindings,
                None => Seq::empty(),
            },
    {
        match self.file(uri) {
            Some(file) => {
                lookup::slice_of(&file.bindings)
            },
            None => {
                let none: &[ScopeBinding] = &[];
                assert(none.deep_view() =~= Seq::<source::BindingView>::empty());
                none
            },
        }
    }

    /// The occurrences in a file.
    pub fn source_occurrences(&self, uri: &str) -> (found: &[SourceOccurrence])
        ensures
            found.deep_view() == match self.deep_view().file(uri@) {
                Some(file) => file.occurrences,
                None => Seq::empty(),
            },
    {
        match self.file(uri) {
            Some(file) => {
                lookup::slice_of(&file.occurrences)
            },
            None => {
                let none: &[SourceOccurrence] = &[];
                assert(none.deep_view() =~= Seq::<source::OccurrenceView>::empty());
                none
            },
        }
    }

    /// All ignored occurrences.
    pub fn ignored_occurrences(&self) -> (found: Vec<&SourceOccurrence>)
        ensures
            found.deep_view() == self.deep_view().ignored(),
    {
        let ghost all = self.files.deep_view();
        let mut found: Vec<&SourceOccurrence> = Vec::new();
        assert(found.deep_view() =~= Seq::<source::OccurrenceView>::empty());
        let mut n: usize = 0;
        while n < self.files.len()
            invariant
                n <= self.files@.len(),
                all == self.files.deep_view(),
                found.deep_view() == ignored_within(all, n as int),
            decreases self.files@.len() - n,
        {
            assert(all[n as int] == self.files@[n as int].deep_view());
            let list = &self.files[n].ignored_occurrences;
            let ghost front = found.deep_view();
            let ghost part = list.deep_view();
            let mut k: usize = 0;
            assert(front + part.take(0) =~= front);
            while k < list.len()
                invariant
                    k <= list@.len(),
                    part == list.deep_view(),
                    found.deep_view() == front + part.take(k as int),
                decreases list@.len() - k,
            {
                let ghost before = found.deep_view();
                found.push(&list[k]);
                assert(found.deep_view() =~= before.push(part[k as int]));
                assert(front + part.take(k + 1) =~= before.push(part[k as int]));
                k += 1;
            }
            assert(part.take(k as int) =~= part);
            n += 1;
        }
        found
    }

    /// All entries of all dictionaries, by key, locale and file.
    pub fn dictionary_entries_all(&self) -> (entries: &[DictionaryEntry])
        ensures
            entries.deep_view() == self.deep_view().entries(),
    {
        proof {
            use_type_invariant(self);
        }
        lookup::slice_of(&self.dictionaries)
    }

    /// The occurrences that refer to a scope; those deep in it count while it has no more than
    /// `recursive_leaf_limit` translations.
    pub fn scope_occurrences(
        &self,
        scope: &CanonicalKey,
        separator: &str,
        recursive_leaf_limit: usize,
    ) -> (found: Vec<&SourceOccurrence>)
        ensures
            found.deep_view() == scope_references(
                self.deep_view().entries(),
                self.deep_view().occurrences(),
                scope@,
                separator@,
                recursive_leaf_limit,
            ),
    {
        proof {
            use_type_invariant(self);
        }
        let entries = lookup::all_of(lookup::slice_of(&self.dictionaries));
        let found = lookup::all_of(lookup::slice_of(&self.occurrences));
        references_to(&entries, &found, scope, separator, recursive_leaf_limit)
    }

    /// The occurrences that refer to a scope of a namespace.
    pub fn qualified_scope_occurrences(
        &self,
        namespace: Option<&str>,
        scope: &CanonicalKey,
        separator: &str,
        recursive_leaf_limit: usize,
    ) -> (found: Vec<&SourceOccurrence>)
        ensures
            found.deep_view() == scope_references(
                self.deep_view().entries_in(namespace.deep_view()),
                self.deep_view().occurrences_in(namespace.deep_view()),
                scope@,
                separator@,
                recursive_leaf_limit,
            ),
    {
        let entries = self.entries_in(namespace);
        let found = self.occurrences_in(namespace);
        references_to(&entries, &found, scope, separator, recursive_leaf_limit)
    }
}

/// The translations in the default locale.
pub open spec fn default_leaves(snapshot: SnapshotView, default_locale: Seq<char>) -> Seq<
    dictionary::EntryView,
> {
    sort::kept(
        snapshot.entries(),
        |entry: dictionary::EntryView|
            entry.locale == default_locale && entry.kind == EntryKind::Leaf,
    )
}

/// Whether two namespaces are the same.
pub fn same_namespace(left: &Option<String>, right: Option<&str>) -> (same: bool)
    ensures
        same == (left.deep_view() == right.deep_view()),
{
    match (left, right) {
        (Some(left), Some(right)) => text::same(left.as_str(), right),
        (None, None) => true,
        _ => false,
    }
}

/// Whether the parent of `key` is `scope`.
pub fn key_is_in(key: &CanonicalKey, scope: &CanonicalKey, separator: &str) -> (found: bool)
    ensures
        found == (key::parent_of(key@, separator@) == Some(scope@)),
{
    match key.parent(separator) {
        Some(parent) => parent.same(scope),
        None => false,
    }
}

/// Whether the occurrence makes `key` used by way of a scope.
pub fn covers_key(occurrence: &SourceOccurrence, key: &CanonicalKey, separator: &str) -> (found:
    bool)
    ensures
        found == covers(occurrence.deep_view(), key@, separator@),
{
    occurrence.kind == OccurrenceKind::DynamicScope && (occurrence.key.same(key) || key.is_below(
        &occurrence.key,
        separator,
    ))
}

/// Whether the occurrence uses the leaf `key`.
pub fn uses_key(occurrence: &SourceOccurrence, key: &CanonicalKey, separator: &str) -> (found: bool)
    ensures
        found == uses(occurrence.deep_view(), key@, separator@),
{
    (occurrence.kind != OccurrenceKind::ScopeDeclaration && occurrence.key.same(key))
        || covers_key(occurrence, key, separator)
}

proof fn lemma_leaf_keys_grow(
    entries: Seq<dictionary::EntryView>,
    scope: Seq<char>,
    separator: Seq<char>,
    n: int,
    m: int,
)
    requires
        n <= m,
    ensures
        leaf_keys(entries, scope, separator, n).len() <= leaf_keys(
            entries,
            scope,
            separator,
            m,
        ).len(),
    decreases m,
{
    if n < m && m > 0 {
        lemma_leaf_keys_grow(entries, scope, separator, n, m - 1);
    }
}

/// Whether a scope has no more than `limit` translations.
fn is_small(
    entries: &[&DictionaryEntry],
    scope: &CanonicalKey,
    separator: &str,
    limit: usize,
) -> (small: bool)
    ensures
        small == (leaf_keys(
            entries.deep_view(),
            scope@,
            separator@,
            entries@.len() as int,
        ).len() <= limit),
{
    let ghost all = entries.deep_view();
    let mut keys: Vec<String> = Vec::new();
    assert(keys.deep_view() =~= Seq::<Seq<char>>::empty());
    let mut n: usize = 0;
    while n < entries.len()
        invariant
            n <= entries@.len(),
            all == entries.deep_view(),
            keys.deep_view() == leaf_keys(all, scope@, separator@, n as int),
            keys@.len() <= limit,
        decreases entries@.len() - n,
    {
        let entry = entries[n];
        assert(all[n as int] == entry.deep_view());
        if entry.kind == EntryKind::Leaf && entry.key.is_below(scope, separator) && !text::any_is(
            &keys,
            entry.key.as_str(),
        ) {
            let ghost before = keys.deep_view();
            keys.push(entry.key.as_str().to_owned());
            assert(keys.deep_view() =~= before.push(entry.key@));
            if keys.len() > limit {
                proof {
                    assert(keys.deep_view().len() == keys@.len());
                    lemma_leaf_keys_grow(
                        all,
                        scope@,
                        separator@,
                        n + 1,
                        entries@.len() as int,
                    );
                }
                return false;
            }
        }
        n += 1;
    }
    assert(keys.deep_view().len() == keys@.len());
    true
}

/// The occurrences that refer to a scope.
fn references_to<'a>(
    entries: &[&DictionaryEntry],
    occurrences: &[&'a SourceOccurrence],
    scope: &CanonicalKey,
    separator: &str,
    limit: usize,
) -> (found: Vec<&'a SourceOccurrence>)
    ensures
        found.deep_view() == scope_references(
            entries.deep_view(),
            occurrences.deep_view(),
            scope@,
            separator@,
            limit,
        ),
{
    let at_any_depth = is_small(entries, scope, separator, limit);
    let ghost all = occurrences.deep_view();
    let ghost keep = |occurrence: source::OccurrenceView|
        refers_to(occurrence, scope@, separator@, at_any_depth);
    assert(entries.deep_view().len() == entries@.len());
    assert(scope_references(entries.deep_view(), all, scope@, separator@, limit) == sort::kept(
        all,
        keep,
    ));
    let mut found: Vec<&'a SourceOccurrence> = Vec::new();
    assert(found.deep_view() =~= Seq::<source::OccurrenceView>::empty());
    assert(all.take(0) =~= Seq::<source::OccurrenceView>::empty());
    let mut n: usize = 0;
    while n < occurrences.len()
        invariant
            n <= occurrences@.len(),
            all == occurrences.deep_view(),
            keep == (|occurrence: source::OccurrenceView|
                refers_to(occurrence, scope@, separator@, at_any_depth)),
            found.deep_view() == sort::kept(all.take(n as int), keep),
        decreases occurrences@.len() - n,
    {
        let occurrence = occurrences[n];
        let ghost before = found.deep_view();
        assert(all[n as int] == occurrence.deep_view());
        assert(all.take(n + 1) =~= all.take(n as int).push(all[n as int]));
        proof {
            sort::lemma_kept_push(all.take(n as int), all[n as int], keep);
        }
        if (occurrence.kind == OccurrenceKind::ScopeDeclaration && occurrence.key.same(scope))
            || covers_key(occurrence, scope, separator) || if at_any_depth {
            occurrence.key.is_below(scope, separator)
        } else {
            key_is_in(&occurrence.key, scope, separator)
        } {
            found.push(occurrence);
            assert(found.deep_view() =~= before.push(all[n as int]));
        }
        n += 1;
    }
    assert(all.take(n as int) =~= all);
    found
}

/// Copies of entries.
fn copy_entries(entries: &[DictionaryEntry]) -> (copies: Vec<DictionaryEntry>)
    ensures
        copies.deep_view() == entries.deep_view(),
{
    let mut copies: Vec<DictionaryEntry> = Vec::new();
    let mut n: usize = 0;
    while n < entries.len()
        invariant
            n <= entries@.len(),
            copies@ == entries@.take(n as int),
        decreases entries@.len() - n,
    {
        copies.push(entries[n].clone());
        assert(entries@.take(n + 1) =~= entries@.take(n as int).push(entries@[n as int]));
        n += 1;
    }
    assert(entries@.take(n as int) =~= entries@);
    assert(copies.deep_view() =~= entries.deep_view());
    copies
}

/// Copies of occurrences.
fn copy_occurrences(occurrences: &[SourceOccurrence]) -> (copies: Vec<SourceOccurrence>)
    ensures
        copies.deep_view() == occurrences.deep_view(),
{
    let ghost all = occurrences.deep_view();
    let mut copies: Vec<SourceOccurrence> = Vec::new();
    let mut n: usize = 0;
    assert(copies.deep_view() =~= all.take(0));
    while n < occurrences.len()
        invariant
            n <= occurrences@.len(),
            all == occurrences.deep_view(),
            copies.deep_view() == all.take(n as int),
        decreases occurrences@.len() - n,
    {
        let ghost before = copies.deep_view();
        copies.push(occurrences[n].clone());
        assert(copies.deep_view() =~= before.push(all[n as int]));
        assert(all.take(n + 1) =~= before.push(all[n as int]));
        n += 1;
    }
    assert(all.take(n as int) =~= all);
    copies
}

/// Where the file `uri` stands.
fn find_file(files: &[FileContribution], uri: &str) -> (place: Option<usize>)
    ensures
        match place {
            Some(i) => place_of(files.deep_view(), uri@, 0) == Some(i as int) && i < files@.len()
                && files@[i as int].uri@ == uri@,
            None => place_of(files.deep_view(), uri@, 0) is None,
        },
{
    let ghost all = files.deep_view();
    let mut n: usize = 0;
    while n < files.len()
        invariant
            n <= files@.len(),
            all == files.deep_view(),
            place_of(all, uri@, 0) == place_of(all, uri@, n as int),
        decreases files@.len() - n,
    {
        assert(all[n as int] == files@[n as int].deep_view());
        if text::same(files[n].uri.as_str(), uri) {
            return Some(n);
        }
        n += 1;
    }
    None
}

/// Puts a file in the place of that of the same URI, or behind the others.
pub fn put_file(files: &mut Vec<FileContribution>, file: FileContribution)
    ensures
        final(files).deep_view() == with_file(old(files).deep_view(), file.deep_view()),
{
    let ghost before = files.deep_view();
    match find_file(files, file.uri.as_str()) {
        Some(i) => {
            files.set(i, file);
            assert(files.deep_view() =~= before.update(i as int, file.deep_view()));
        },
        None => {
            files.push(file);
            assert(files.deep_view() =~= before.push(file.deep_view()));
        },
    }
}

/// Puts a file on disk in, in the place of the same file where it is there. `keys` are those of the
/// files.
pub fn put_disk_file(
    files: &mut Vec<FileContribution>,
    keys: &mut Vec<String>,
    file: FileContribution,
    platform: Platform,
)
    requires
        old(keys).deep_view() == disk_keys(old(files).deep_view(), platform),
    ensures
        final(files).deep_view() == with_disk_file(
            old(files).deep_view(),
            file.deep_view(),
            platform,
        ),
        final(keys).deep_view() == disk_keys(final(files).deep_view(), platform),
{
    let ghost before = files.deep_view();
    let ghost known = keys.deep_view();
    assert(known.len() == keys@.len() && before.len() == files@.len());
    let key = urls::key_on_disk(file.uri.as_str(), platform);
    let mut i: usize = 0;
    while i < keys.len()
        invariant
            i <= keys@.len(),
            keys.deep_view() == known,
            known == disk_keys(before, platform),
            files.deep_view() == before,
            known.len() == keys@.len() == files@.len(),
            before == old(files).deep_view(),
            key@ == urls::disk_key(file.deep_view().uri, platform),
            key_place(known, key@, 0) == key_place(known, key@, i as int),
        decreases keys@.len() - i,
    {
        assert(known[i as int] == keys@[i as int]@);
        if text::same(keys[i].as_str(), key.as_str()) {
            files.set(i, file);
            assert(files.deep_view() =~= before.update(i as int, file.deep_view()));
            assert(keys.deep_view() =~= disk_keys(files.deep_view(), platform));
            return ;
        }
        i += 1;
    }
    let ghost added = key@;
    files.push(file);
    keys.push(key);
    assert(files.deep_view() =~= before.push(file.deep_view()));
    assert(keys.deep_view() =~= known.push(added));
    assert(keys.deep_view() =~= disk_keys(files.deep_view(), platform));
}

/// Takes out the file of a URI.
pub fn drop_file(files: &mut Vec<FileContribution>, uri: &str)
    ensures
        final(files).deep_view() == without_file(old(files).deep_view(), uri@),
{
    let ghost before = files.deep_view();
    if let Some(i) = find_file(files, uri) {
        files.remove(i);
        assert(files.deep_view() =~= before.remove(i as int));
    }
}

/// The files, each URI once.
fn keep_distinct(files: Vec<FileContribution>) -> (distinct: Vec<FileContribution>)
    ensures
        distinct.deep_view() == distinct_files(files.deep_view(), files@.len() as int),
{
    let ghost all = files.deep_view();
    let mut rest = files;
    let mut back: Vec<FileContribution> = Vec::new();
    let ghost total = all.len() as int;
    let mut distinct: Vec<FileContribution> = Vec::new();
    assert(distinct.deep_view() =~= Seq::<FileView>::empty());
    // The files are taken from the front by way of a list in the opposite order.
    while rest.len() > 0
        invariant
            total == all.len(),
            rest.deep_view() + back.deep_view().reverse() == all,
        decreases rest@.len(),
    {
        let ghost before = rest.deep_view();
        let ghost done = back.deep_view();
        if let Some(file) = rest.pop() {
            assert(rest.deep_view() =~= before.drop_last());
            back.push(file);
            assert(back.deep_view() =~= done.push(before.last()));
            assert(rest.deep_view() + back.deep_view().reverse() =~= before + done.reverse());
        }
    }
    assert(back.deep_view().reverse() =~= all);
    let ghost turned = back.deep_view();
    assert(turned =~= all.reverse());
    while back.len() > 0
        invariant
            total == all.len(),
            back@.len() <= total,
            back.deep_view() == all.reverse().take(back@.len() as int),
            distinct.deep_view() == distinct_files(all, total - back@.len()),
        decreases back@.len(),
    {
        let ghost count = back@.len() as int;
        let ghost before = back.deep_view();
        if let Some(file) = back.pop() {
            assert(file.deep_view() == before.last());
            assert(before.last() == all[total - count]);
            assert(back.deep_view() =~= before.drop_last());
            assert(all.reverse().take(count - 1) =~= before.drop_last());
            put_file(&mut distinct, file);
        }
    }
    distinct
}

} // verus!
