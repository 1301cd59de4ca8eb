//! A workspace: its configuration and the index of its files.
use crate::analysis;
use crate::config;
use crate::config::{Config, ConfigError};
use crate::dictionary;
use crate::dictionary::DictionaryEntry;
use crate::index;
use crate::index::{FileContribution, IndexSnapshot};
use crate::json;
use crate::key;
use crate::key::CanonicalKey;
use crate::path;
use crate::path::Platform;
use crate::pattern;
use crate::pattern::DictionaryPattern;
use crate::search;
use crate::sort;
use crate::source;
use crate::source::{OccurrenceKind, SourceOccurrence};
use crate::syntax;
use crate::text;
use crate::urls;
use vstd::prelude::*;

verus! {

/// What a user chooses for a workspace.
#[derive(Clone, Copy, Debug, PartialEq, Eq, Structural)]
pub struct WorkspacePreferences {
    pub show_unused_keys: bool,
}

impl Default for WorkspacePreferences {
    fn default() -> (preferences: Self)
        ensures
            preferences.show_unused_keys,
    {
        WorkspacePreferences { show_unused_keys: true }
    }
}

/// What a dictionary file is wrong about.
#[derive(Clone, Debug)]
pub struct DictionaryIssue {
    pub path: String,
    pub message: String,
    pub line: Option<usize>,
    pub column: Option<usize>,
}

/// What a `DictionaryIssue` holds.
pub struct IssueView {
    pub path: Seq<char>,
    pub message: Seq<char>,
    pub line: Option<usize>,
    pub column: Option<usize>,
}

impl DeepView for DictionaryIssue {
    type V = IssueView;

    open spec fn deep_view(&self) -> IssueView {
        IssueView {
            path: self.path@,
            message: self.message@,
            line: self.line,
            column: self.column,
        }
    }
}

/// A file on disk: where it is, its URI, and what reading it gave.
#[derive(Debug)]
pub struct DiskFile {
    pub path: String,
    pub uri: Option<String>,
    pub text: Result<String, String>,
}

/// What a `DiskFile` holds.
pub struct DiskView {
    pub path: Seq<char>,
    pub uri: Option<Seq<char>>,
    pub text: Result<Seq<char>, Seq<char>>,
}

impl DeepView for DiskFile {
    type V = DiskView;

    open spec fn deep_view(&self) -> DiskView {
        DiskView {
            path: self.path@,
            uri: self.uri.deep_view(),
            text: match self.text {
                Ok(text) => Ok(text@),
                Err(message) => Err(message@),
            },
        }
    }
}

impl DiskFile {
    /// A file on disk, given what reading it gave.
    pub fn new(path: String, text: Result<String, String>) -> (file: Self)
        ensures
            file.path == path,
            file.text == text,
            urls::is_uri(path@, file.deep_view().uri),
    {
        let uri = urls::find_uri(path.as_str());
        DiskFile { path, uri, text }
    }
}

/// What a walk through a directory comes to: a file, or an entry that cannot be read.
#[derive(Debug)]
pub enum Walked {
    File(DiskFile),
    Fault,
}

/// What a `Walked` holds.
pub enum WalkedView {
    File(DiskView),
    Fault,
}

impl DeepView for Walked {
    type V = WalkedView;

    open spec fn deep_view(&self) -> WalkedView {
        match self {
            Walked::File(file) => WalkedView::File(file.deep_view()),
            Walked::Fault => WalkedView::Fault,
        }
    }
}

/// The extension of the last component of a path.
pub open spec fn extension(path: Seq<char>, platform: Platform) -> Option<Seq<char>> {
    let components = path::components(path, platform);
    if components.len() == 0 || components.last() == seq!['/'] || components.last() == seq!['.']
        || components.last() == seq!['.', '.'] {
        None
    } else {
        let name = components.last();
        match search::rfind_from(name, seq!['.'], name.len() as int) {
            Some(i) => if i > 0 {
                Some(name.skip(i + 1))
            } else {
                None
            },
            None => None,
        }
    }
}

/// Whether a path is that of source code.
pub open spec fn is_source(path: Seq<char>, platform: Platform) -> bool {
    extension(path, platform) matches Some(found) && (found == "js"@ || found == "jsx"@ || found == "ts"@
        || found == "tsx"@)
}

/// An entry in a namespace.
pub open spec fn in_namespace(
    entry: dictionary::EntryView,
    namespace: Option<Seq<char>>,
) -> dictionary::EntryView {
    dictionary::EntryView { namespace, ..entry }
}

/// Whether an ignored occurrence is one to speak of: it has a text, and its scope is not ignored
/// itself or is what it declares.
pub open spec fn is_notable(
    occurrence: source::OccurrenceView,
    scopes: Seq<Seq<char>>,
    separator: Seq<char>,
) -> bool {
    &&& occurrence.range.0 < occurrence.range.1
    &&& occurrence.kind == OccurrenceKind::ScopeDeclaration || !(occurrence.scope matches Some(
        scope,
    ) && key::ignored(scopes, scope, separator))
}

/// What a `WorkspaceIndex` holds.
pub struct WorkspaceView {
    pub platform: Platform,
    pub root: Seq<char>,
    pub config: config::ConfigView,
    pub preferences: WorkspacePreferences,
    pub snapshot: index::SnapshotView,
}

impl WorkspaceView {
    /// The normal form of the dictionary pattern.
    pub open spec fn pattern(self) -> Seq<char> {
        pattern::normal_pattern(pattern::with_slashes(self.config.dictionaries))
    }

    /// The identity of the dictionary at a path.
    pub open spec fn identity(self, path: Seq<char>) -> Option<pattern::IdentityView> {
        pattern::identity_at(self.pattern(), self.root, path, self.platform)
    }

    /// How deep the root lies.
    pub open spec fn depth(self) -> nat {
        path::components(self.root, self.platform).len()
    }

    /// Whether a path belongs to the workspace.
    pub open spec fn contains(self, path: Seq<char>) -> bool {
        path::is_within(path, self.root, self.platform) || self.identity(path) is Some
    }

    /// Whether a key belongs to an ignored scope.
    pub open spec fn ignores(self, key: Seq<char>) -> bool {
        key::ignored(
            text::distinct(self.config.ignored_scopes, self.config.ignored_scopes.len() as int),
            key,
            self.config.key_separator,
        )
    }

    /// The directory of the dictionaries.
    pub open spec fn dictionary_root(self) -> Seq<char> {
        path::path_text(
            pattern::search_components(self.pattern(), self.root, self.platform),
            self.platform,
        )
    }

    /// The entries that the text of a dictionary gives.
    pub open spec fn dictionary_entries(
        self,
        identity: pattern::IdentityView,
        uri: Seq<char>,
        text: Seq<char>,
    ) -> Seq<dictionary::EntryView> {
        let scopes = text::distinct(
            self.config.ignored_scopes,
            self.config.ignored_scopes.len() as int,
        );
        dictionary::without_ignored(
            dictionary::entries_of(
                uri,
                identity.locale,
                text,
                self.config.key_separator,
                syntax::json_tree(text),
            ),
            scopes,
            self.config.key_separator,
        ).map_values(|entry: dictionary::EntryView| in_namespace(entry, identity.namespace))
    }

    /// The source file that is analyzed for a URI and a text, without its tree.
    pub open spec fn source_file(self, uri: Seq<char>, text: Seq<char>) -> analysis::SourceView {
        analysis::SourceView {
            uri,
            text,
            tree: Seq::empty(),
            strings: Seq::empty(),
            separator: self.config.key_separator,
            scoped_functions: self.config.scoped_functions,
            full_key_functions: self.config.full_key_functions,
            key_types: self.config.translation_key_types,
            key_props: self.config.translation_key_props,
            default_namespace: self.config.default_namespace,
        }
    }

    /// What a text at `path` adds to the index.
    pub open spec fn contribution(
        self,
        uri: Seq<char>,
        path: Seq<char>,
        text: Seq<char>,
        version: Option<i32>,
    ) -> Option<index::FileView> {
        match self.identity(path) {
            Some(identity) => if dictionary::parse_fault(
                json::fault(text),
                syntax::json_tree(text),
            ) is Some {
                None
            } else {
                Some(
                    index::FileView {
                        uri,
                        text,
                        version,
                        dictionaries: self.dictionary_entries(identity, uri, text),
                        occurrences: Seq::empty(),
                        ignored_occurrences: Seq::empty(),
                        bindings: Seq::empty(),
                    },
                )
            },
            None => if is_source(path, self.platform) {
                Some(
                    self.source_contribution(
                        uri,
                        text,
                        version,
                        analysis::occurrences_in(
                            self.source_file(uri, text),
                            syntax::tsx_tree(text),
                        ),
                        analysis::bindings_in(self.source_file(uri, text), syntax::tsx_tree(text)),
                    ),
                )
            } else {
                None
            },
        }
    }

    /// What a source file adds to the index, given what was found in it.
    pub open spec fn source_contribution(
        self,
        uri: Seq<char>,
        text: Seq<char>,
        version: Option<i32>,
        found: Seq<source::OccurrenceView>,
        bindings: Seq<source::BindingView>,
    ) -> index::FileView {
        let scopes = text::distinct(
            self.config.ignored_scopes,
            self.config.ignored_scopes.len() as int,
        );
        let separator = self.config.key_separator;
        index::FileView {
            uri,
            text,
            version,
            dictionaries: Seq::empty(),
            occurrences: sort::kept(
                found,
                |occurrence: source::OccurrenceView|
                    !key::ignored(scopes, occurrence.key, separator),
            ),
            ignored_occurrences: sort::kept(
                found,
                |occurrence: source::OccurrenceView|
                    key::ignored(scopes, occurrence.key, separator) && is_notable(
                        occurrence,
                        scopes,
                        separator,
                    ),
            ),
            bindings,
        }
    }

    /// What a file on disk adds to the index: a dictionary wherever it is, source code in the
    /// workspace.
    pub open spec fn disk_contribution(self, file: DiskView) -> Option<index::FileView> {
        match (file.uri, file.text) {
            (Some(uri), Ok(text)) => if self.identity(file.path) is Some || path::is_within(
                file.path,
                self.root,
                self.platform,
            ) {
                self.contribution(uri, file.path, text, None)
            } else {
                None
            },
            _ => None,
        }
    }

    /// What the first `n` files on disk add to the index, each file once.
    pub open spec fn disk_contributions(self, files: Seq<DiskView>, n: int) -> Seq<index::FileView>
        decreases n,
    {
        if n <= 0 {
            Seq::empty()
        } else {
            let before = self.disk_contributions(files, n - 1);
            match self.disk_contribution(files[n - 1]) {
                Some(file) => index::with_disk_file(before, file, self.platform),
                None => before,
            }
        }
    }

    /// The workspace with other files in its index.
    pub open spec fn with_files(self, files: Seq<index::FileView>) -> WorkspaceView {
        WorkspaceView {
            snapshot: index::SnapshotView {
                generation: (self.snapshot.generation + 1) as u64,
                files: index::distinct_files(files, files.len() as int),
            },
            ..self
        }
    }

    /// What is wrong with the dictionary file, where it is one.
    pub open spec fn dictionary_issue(self, file: DiskView) -> Option<IssueView> {
        if self.identity(file.path) is None {
            None
        } else {
            match file.text {
                Err(message) => Some(
                    IssueView {
                        path: file.path,
                        message: "could not read dictionary: "@ + message,
                        line: None,
                        column: None,
                    },
                ),
                Ok(text) => match dictionary::parse_fault(
                    json::fault(text),
                    syntax::json_tree(text),
                ) {
                    None => None,
                    Some(error) => Some(
                        IssueView {
                            path: file.path,
                            message: dictionary::error_text(error),
                            line: fault_line(error),
                            column: fault_column(error),
                        },
                    ),
                },
            }
        }
    }

    /// The first issue among what a walk comes to from index `from` on; a walk ends where an entry
    /// cannot be read or a readable dictionary has no URI.
    pub open spec fn first_issue(self, walk: Seq<WalkedView>, from: int) -> Option<IssueView>
        decreases walk.len() - from,
    {
        if from >= walk.len() {
            None
        } else {
            match walk[from] {
                WalkedView::Fault => None,
                WalkedView::File(file) => if self.identity(file.path) is Some && file.text is Ok
                    && file.uri is None {
                    None
                } else {
                    match self.dictionary_issue(file) {
                        Some(issue) => Some(issue),
                        None => self.first_issue(walk, from + 1),
                    }
                },
            }
        }
    }

    /// Whether one of the files that are indexed is a dictionary of the default locale.
    pub open spec fn has_default_locale(self, files: Seq<DiskView>) -> bool {
        exists|i: int|
            0 <= i < files.len() && self.disk_contribution(#[trigger] files[i]) is Some && (
            self.identity(files[i].path) matches Some(identity) && identity.locale
                == self.config.default_locale)
    }

    /// Whether the text of a file that an editor holds is older than what is indexed.
    pub open spec fn is_stale(self, uri: Seq<char>, version: Option<i32>) -> bool {
        self.snapshot.file(uri) matches Some(file) && file.version matches Some(held)
            && version matches Some(version) && held >= version
    }

    /// The workspace after an editor gave the text of a file, whose path and canonical URI are
    /// known.
    pub open spec fn updated(
        self,
        uri: Seq<char>,
        path: Option<Seq<char>>,
        canonical: Seq<char>,
        text: Seq<char>,
        version: Option<i32>,
    ) -> WorkspaceView {
        if self.is_stale(uri, version) {
            self
        } else {
            let kept = match self.snapshot.file(uri) {
                Some(file) => file.uri,
                None => canonical,
            };
            let parsed = match path {
                Some(path) => self.contribution(kept, path, text, version),
                None => None,
            };
            let file = match parsed {
                Some(file) => file,
                None => index::FileView {
                    uri: kept,
                    text,
                    version,
                    dictionaries: Seq::empty(),
                    occurrences: Seq::empty(),
                    ignored_occurrences: Seq::empty(),
                    bindings: Seq::empty(),
                },
            };
            self.with_files(index::with_file(self.snapshot.files, file))
        }
    }

    /// Whether `held` is the URI under which the file is kept that an editor calls `uri`; `uri`
    /// itself where there is no such file.
    pub open spec fn is_held(self, uri: Seq<char>, held: Seq<char>) -> bool {
        index::is_held(self.snapshot.files, uri, self.platform, held)
    }

    /// The workspace after the file kept under a URI was read from disk.
    pub open spec fn refreshed(self, uri: Seq<char>, file: DiskView) -> WorkspaceView {
        match self.disk_contribution(file) {
            Some(found) => self.with_files(
                index::with_file(
                    if found.uri == uri {
                        self.snapshot.files
                    } else {
                        index::without_file(self.snapshot.files, uri)
                    },
                    found,
                ),
            ),
            None => self.with_files(index::without_file(self.snapshot.files, uri)),
        }
    }
}

/// The line of a dictionary error.
pub open spec fn fault_line(error: dictionary::DictionaryErrorView) -> Option<usize> {
    match error {
        dictionary::DictionaryErrorView::InvalidJson(fault) => Some(fault.line),
        dictionary::DictionaryErrorView::Parser => None,
    }
}

/// The column of a dictionary error.
pub open spec fn fault_column(error: dictionary::DictionaryErrorView) -> Option<usize> {
    match error {
        dictionary::DictionaryErrorView::InvalidJson(fault) => Some(fault.column),
        dictionary::DictionaryErrorView::Parser => None,
    }
}

/// The extension of the last component of a path.
fn find_extension(path: &str, platform: Platform) -> (found: Option<String>)
    ensures
        found.deep_view() == extension(path@, platform),
{
    proof {
        reveal_strlit("/");
        reveal_strlit(".");
        reveal_strlit("..");
    }
    assert("/"@ =~= seq!['/']);
    assert("."@ =~= seq!['.']);
    assert(".."@ =~= seq!['.', '.']);
    let components = path::components_in(path, platform);
    let count: usize = components.len();
    assert(components.deep_view().len() == count);
    if count == 0 {
        return None;
    }
    let name = components[count - 1].as_str();
    assert(components.deep_view().last() == name@);
    if text::same(name, "/") || text::same(name, ".") || text::same(name, "..") {
        return None;
    }
    let chars = text::chars_of(name);
    let dot: [char; 1] = ['.'];
    assert(dot@ =~= seq!['.']);
    match search::rfind(&chars, &dot) {
        None => None,
        Some(i) => {
            proof {
                search::lemma_rfind(name@, seq!['.'], name@.len() as int);
            }
            if i == 0 {
                return None;
            }
            let total: usize = chars.len();
            let found = text::string_of(&chars, i + 1, total);
            assert(found@ =~= name@.skip(i + 1));
            Some(found)
        },
    }
}

/// Whether a path is that of source code.
pub fn is_source_path(path: &str, platform: Platform) -> (found: bool)
    ensures
        found == is_source(path@, platform),
{
    match find_extension(path, platform) {
        None => false,
        Some(found) => {
            let found = found.as_str();
            text::same(found, "js") || text::same(found, "jsx") || text::same(found, "ts")
                || text::same(found, "tsx")
        },
    }
}

/// A workspace: its configuration and the index of its files.
#[derive(Debug)]
pub struct WorkspaceIndex {
    platform: Platform,
    root: String,
    config: Config,
    preferences: WorkspacePreferences,
    ignored_scopes: Vec<String>,
    pattern: DictionaryPattern,
    snapshot: IndexSnapshot,
}

impl DeepView for WorkspaceIndex {
    type V = WorkspaceView;

    closed spec fn deep_view(&self) -> WorkspaceView {
        WorkspaceView {
            platform: self.platform,
            root: self.root@,
            config: self.config.deep_view(),
            preferences: self.preferences,
            snapshot: self.snapshot.deep_view(),
        }
    }
}

impl WorkspaceIndex {
    #[verifier::type_invariant]
    closed spec fn is_configured(&self) -> bool {
        &&& self.ignored_scopes.deep_view() == text::distinct(
            self.config.deep_view().ignored_scopes,
            self.config.deep_view().ignored_scopes.len() as int,
        )
        &&& self.pattern@ == pattern::normal_pattern(
            pattern::with_slashes(self.config.dictionaries@),
        )
        &&& index::are_distinct(self.snapshot.deep_view().files)
    }

    /// A workspace without files on a platform, if its configuration can be used.
    pub fn new_on(
        platform: Platform,
        root: String,
        config: Config,
        preferences: WorkspacePreferences,
    ) -> (made: Result<Self, ConfigError>)
        ensures
            config::fault_of(made) == config::config_fault(config.deep_view()),
            made matches Ok(made) ==> made.deep_view() == fresh_workspace(
                platform,
                root@,
                config.deep_view(),
                preferences,
            ),
    {
        if let Err(fault) = config.validate() {
            return Err(fault);
        }
        let pattern = match config.dictionary_pattern() {
            Ok(pattern) => pattern,
            Err(fault) => {
                return Err(fault);
            },
        };
        let ignored_scopes = config.ignored_scope_set();
        let none: Vec<FileContribution> = Vec::new();
        let snapshot = IndexSnapshot::rebuild(0, none);
        assert(none.deep_view() =~= Seq::<index::FileView>::empty());
        Ok(
            WorkspaceIndex {
                platform,
                root,
                config,
                preferences,
                ignored_scopes,
                pattern,
                snapshot,
            },
        )
    }

    /// A workspace without files, if its configuration can be used.
    pub fn new(root: String, config: Config, preferences: WorkspacePreferences) -> (made: Result<
        Self,
        ConfigError,
    >)
        ensures
            config::fault_of(made) == config::config_fault(config.deep_view()),
            made matches Ok(made) ==> path::is_here(made.deep_view().platform) && made.deep_view()
                == fresh_workspace(
                made.deep_view().platform,
                root@,
                config.deep_view(),
                preferences,
            ),
    {
        WorkspaceIndex::new_on(path::platform_here(), root, config, preferences)
    }

    /// How paths are written.
    pub fn platform(&self) -> (platform: Platform)
        ensures
            platform == self.deep_view().platform,
    {
        self.platform
    }

    pub fn root(&self) -> (root: &str)
        ensures
            root@ == self.deep_view().root,
    {
        self.root.as_str()
    }

    pub fn config(&self) -> (config: &Config)
        ensures
            config.deep_view() == self.deep_view().config,
    {
        &self.config
    }

    pub fn preferences(&self) -> (preferences: WorkspacePreferences)
        ensures
            preferences == self.deep_view().preferences,
    {
        self.preferences
    }

    /// The index as it is now, in which no two files have the same URI.
    pub fn snapshot(&self) -> (snapshot: &IndexSnapshot)
        ensures
            snapshot.deep_view() == self.deep_view().snapshot,
            index::are_distinct(self.deep_view().snapshot.files),
    {
        proof {
            use_type_invariant(self);
        }
        &self.snapshot
    }

    /// The directory of the dictionaries.
    pub fn dictionary_root(&self) -> (directory: String)
        ensures
            directory@ == self.deep_view().dictionary_root(),
    {
        proof {
            use_type_invariant(self);
        }
        self.pattern.search_root_on(self.root.as_str(), self.platform)
    }

    /// The identity of the dictionary at a path.
    pub fn identity(&self, path: &str) -> (identity: Option<pattern::DictionaryIdentity>)
        ensures
            identity.deep_view() == self.deep_view().identity(path@),
    {
        proof {
            use_type_invariant(self);
        }
        self.pattern.identity_on(self.root.as_str(), path, self.platform)
    }

    /// Whether a path is that of a dictionary.
    pub fn is_dictionary_path(&self, path: &str) -> (found: bool)
        ensures
            found == (self.deep_view().identity(path@) is Some),
    {
        self.identity(path).is_some()
    }

    /// Whether a path belongs to the workspace.
    pub fn contains_path(&self, path: &str) -> (found: bool)
        ensures
            found == self.deep_view().contains(path@),
    {
        path::within(path, self.root.as_str(), self.platform) || self.is_dictionary_path(path)
    }

    /// Whether a key belongs to an ignored scope.
    pub fn is_ignored_key(&self, key: &CanonicalKey) -> (found: bool)
        ensures
            found == self.deep_view().ignores(key@),
    {
        proof {
            use_type_invariant(self);
        }
        key::is_ignored_key(&self.ignored_scopes, key.as_str(), self.config.key_separator.as_str())
    }

    /// The directories whose files make up the index.
    pub fn scan_roots(&self) -> (roots: Vec<String>)
        ensures
            roots.deep_view() == if path::is_within(
                self.deep_view().dictionary_root(),
                self.deep_view().root,
                self.deep_view().platform,
            ) {
                seq![self.deep_view().root]
            } else {
                seq![self.deep_view().root, self.deep_view().dictionary_root()]
            },
    {
        let mut roots: Vec<String> = Vec::new();
        roots.push(self.root.clone());
        let directory = self.dictionary_root();
        if !path::within(directory.as_str(), self.root.as_str(), self.platform) {
            roots.push(directory);
            assert(roots.deep_view() =~= seq![
                self.deep_view().root,
                self.deep_view().dictionary_root(),
            ]);
        } else {
            assert(roots.deep_view() =~= seq![self.deep_view().root]);
        }
        roots
    }

    /// What a text at `path` adds to the index.
    pub fn parse_text(&self, uri: &str, path: &str, text: &str, version: Option<i32>) -> (file:
        Option<FileContribution>)
        ensures
            file.deep_view() == self.deep_view().contribution(uri@, path@, text@, version),
    {
        proof {
            use_type_invariant(self);
        }
        let separator = self.config.key_separator.as_str();
        if let Some(identity) = self.identity(path) {
            return match dictionary::parse_dictionary_ignoring(
                uri,
                identity.locale.as_str(),
                text,
                separator,
                &self.ignored_scopes,
            ) {
                Err(_) => None,
                Ok(entries) => {
                    let dictionaries = put_in_namespace(entries, &identity.namespace);
                    let file = FileContribution {
                        uri: uri.to_owned(),
                        text: text.to_owned(),
                        version,
                        dictionaries,
                        occurrences: Vec::new(),
                        ignored_occurrences: Vec::new(),
                        bindings: Vec::new(),
                    };
                    assert(file.occurrences.deep_view() =~= Seq::<source::OccurrenceView>::empty());
                    assert(file.ignored_occurrences.deep_view()
                        =~= Seq::<source::OccurrenceView>::empty());
                    assert(file.bindings.deep_view() =~= Seq::<source::BindingView>::empty());
                    Some(file)
                },
            };
        }
        if !is_source_path(path, self.platform) {
            return None;
        }
        let (found, bindings) = analysis::analyze_source_with_namespace(
            uri,
            text,
            separator,
            &self.config.scoped_functions,
            &self.config.full_key_functions,
            &self.config.translation_key_types,
            &self.config.translation_key_props,
            text::borrowed(&self.config.default_namespace),
        );
        Some(self.partition(uri, text, version, found, bindings))
    }

    /// What a source file adds to the index, given what was found in it.
    pub fn partition(
        &self,
        uri: &str,
        text: &str,
        version: Option<i32>,
        found: Vec<SourceOccurrence>,
        bindings: Vec<source::ScopeBinding>,
    ) -> (file: FileContribution)
        ensures
            file.deep_view() == self.deep_view().source_contribution(
                uri@,
                text@,
                version,
                found.deep_view(),
                bindings.deep_view(),
            ),
    {
        proof {
            use_type_invariant(self);
        }
        let separator = self.config.key_separator.as_str();
        let ghost scopes = self.ignored_scopes.deep_view();
        let ghost all = found.deep_view();
        let ghost plain = |occurrence: source::OccurrenceView|
            !key::ignored(scopes, occurrence.key, separator@);
        let ghost notable = |occurrence: source::OccurrenceView|
            key::ignored(scopes, occurrence.key, separator@) && is_notable(
                occurrence,
                scopes,
                separator@,
            );
        let mut occurrences: Vec<SourceOccurrence> = Vec::new();
        let mut ignored_occurrences: Vec<SourceOccurrence> = Vec::new();
        assert(occurrences.deep_view() =~= Seq::<source::OccurrenceView>::empty());
        assert(ignored_occurrences.deep_view() =~= Seq::<source::OccurrenceView>::empty());
        assert(all.take(0) =~= Seq::<source::OccurrenceView>::empty());
        let mut n: usize = 0;
        while n < found.len()
            invariant
                n <= found@.len(),
                all == found.deep_view(),
                scopes == self.ignored_scopes.deep_view(),
                separator@ == self.config.key_separator@,
                plain == (|occurrence: source::OccurrenceView|
                    !key::ignored(scopes, occurrence.key, separator@)),
                notable == (|occurrence: source::OccurrenceView|
                    key::ignored(scopes, occurrence.key, separator@) && is_notable(
                        occurrence,
                        scopes,
                        separator@,
                    )),
                occurrences.deep_view() == sort::kept(all.take(n as int), plain),
                ignored_occurrences.deep_view() == sort::kept(all.take(n as int), notable),
            decreases found@.len() - n,
        {
            let occurrence = &found[n];
            assert(all[n as int] == occurrence.deep_view());
            assert(all.take(n + 1) =~= all.take(n as int).push(all[n as int]));
            proof {
                sort::lemma_kept_push(all.take(n as int), all[n as int], plain);
                sort::lemma_kept_push(all.take(n as int), all[n as int], notable);
            }
            if !key::is_ignored_key(&self.ignored_scopes, occurrence.key.as_str(), separator) {
                let ghost before = occurrences.deep_view();
                occurrences.push(occurrence.clone());
                assert(occurrences.deep_view() =~= before.push(all[n as int]));
            } else {
                let scope_ignored: bool = match &occurrence.scope {
                    Some(scope) => key::is_ignored_key(
                        &self.ignored_scopes,
                        scope.as_str(),
                        separator,
                    ),
                    None => false,
                };
                if occurrence.range.0.start < occurrence.range.0.end && (occurrence.kind
                    == OccurrenceKind::ScopeDeclaration || !scope_ignored) {
                    let ghost before = ignored_occurrences.deep_view();
                    ignored_occurrences.push(occurrence.clone());
                    assert(ignored_occurrences.deep_view() =~= before.push(all[n as int]));
                }
            }
            n += 1;
        }
        assert(all.take(n as int) =~= all);
        let file = FileContribution {
            uri: uri.to_owned(),
            text: text.to_owned(),
            version,
            dictionaries: Vec::new(),
            occurrences,
            ignored_occurrences,
            bindings,
        };
        assert(file.dictionaries.deep_view() =~= Seq::<dictionary::EntryView>::empty());
        file
    }

    /// What a file on disk adds to the index.
    pub fn parse_disk_file(&self, file: &DiskFile) -> (found: Option<FileContribution>)
        ensures
            found.deep_view() == self.deep_view().disk_contribution(file.deep_view()),
    {
        let uri = match &file.uri {
            Some(uri) => uri.as_str(),
            None => {
                return None;
            },
        };
        let text = match &file.text {
            Ok(text) => text.as_str(),
            Err(_) => {
                return None;
            },
        };
        let path = file.path.as_str();
        if self.is_dictionary_path(path) || path::within(path, self.root.as_str(), self.platform) {
            self.parse_text(uri, path, text, None)
        } else {
            None
        }
    }

    /// Takes the files out of the index, puts others in, and counts the change.
    fn replace_files(&mut self, files: Vec<FileContribution>)
        requires
            old(self).deep_view().snapshot.generation < u64::MAX,
        ensures
            final(self).deep_view() == old(self).deep_view().with_files(files.deep_view()),
    {
        assert(files.deep_view().len() == files@.len());
        let generation: u64 = self.snapshot.generation() + 1;
        let mut snapshot = IndexSnapshot::rebuild(generation, files);
        proof {
            use_type_invariant(&*self);
        }
        std::mem::swap(&mut snapshot, &mut self.snapshot);
    }

    /// Takes the files out of the index.
    fn take_files(&mut self) -> (files: Vec<FileContribution>)
        ensures
            files.deep_view() == old(self).deep_view().snapshot.files,
            final(self).deep_view() == (WorkspaceView {
                snapshot: index::SnapshotView {
                    generation: old(self).deep_view().snapshot.generation,
                    files: Seq::empty(),
                },
                ..old(self).deep_view()
            }),
    {
        let none: Vec<FileContribution> = Vec::new();
        assert(none.deep_view() =~= Seq::<index::FileView>::empty());
        let mut snapshot = IndexSnapshot::rebuild(self.snapshot.generation(), none);
        proof {
            use_type_invariant(&*self);
        }
        std::mem::swap(&mut snapshot, &mut self.snapshot);
        snapshot.into_files()
    }

    /// Builds the index anew from the files on disk.
    pub fn rescan(&mut self, files: &[DiskFile])
        requires
            old(self).deep_view().snapshot.generation < u64::MAX,
        ensures
            final(self).deep_view() == old(self).deep_view().with_files(
                old(self).deep_view().disk_contributions(files.deep_view(), files@.len() as int),
            ),
    {
        let ghost view = self.deep_view();
        let ghost all = files.deep_view();
        let mut found: Vec<FileContribution> = Vec::new();
        let mut keys: Vec<String> = Vec::new();
        assert(found.deep_view() =~= Seq::<index::FileView>::empty());
        assert(keys.deep_view() =~= index::disk_keys(found.deep_view(), self.platform));
        let mut n: usize = 0;
        while n < files.len()
            invariant
                n <= files@.len(),
                all == files.deep_view(),
                view == self.deep_view(),
                view == old(self).deep_view(),
                found.deep_view() == view.disk_contributions(all, n as int),
                keys.deep_view() == index::disk_keys(found.deep_view(), view.platform),
            decreases files@.len() - n,
        {
            assert(all[n as int] == files@[n as int].deep_view());
            if let Some(file) = self.parse_disk_file(&files[n]) {
                index::put_disk_file(&mut found, &mut keys, file, self.platform);
            }
            n += 1;
        }
        self.replace_files(found);
    }

    /// Puts the text that an editor holds into the index, unless a later version is there, for a
    /// file whose path and canonical URI are known. A text that cannot be parsed is kept, too.
    pub fn update_located(
        &mut self,
        uri: &str,
        path: Option<&str>,
        canonical: &str,
        text: String,
        version: Option<i32>,
    )
        requires
            old(self).deep_view().snapshot.generation < u64::MAX,
        ensures
            final(self).deep_view() == old(self).deep_view().updated(
                uri@,
                path.deep_view(),
                canonical@,
                text@,
                version,
            ),
    {
        if let Some(held) = self.snapshot.version(uri) {
            if let Some(version) = version {
                if held >= version {
                    return;
                }
            }
        }
        let kept = if self.snapshot.text(uri).is_some() {
            proof {
                index::lemma_file_uri(self.deep_view().snapshot.files, uri@, 0);
            }
            uri
        } else {
            canonical
        };
        let parsed = match path {
            Some(path) => self.parse_text(kept, path, text.as_str(), version),
            None => None,
        };
        let file = match parsed {
            Some(file) => file,
            None => {
                let file = FileContribution {
                    uri: kept.to_owned(),
                    text,
                    version,
                    dictionaries: Vec::new(),
                    occurrences: Vec::new(),
                    ignored_occurrences: Vec::new(),
                    bindings: Vec::new(),
                };
                assert(file.dictionaries.deep_view() =~= Seq::<dictionary::EntryView>::empty());
                assert(file.occurrences.deep_view() =~= Seq::<source::OccurrenceView>::empty());
                assert(file.ignored_occurrences.deep_view()
                    =~= Seq::<source::OccurrenceView>::empty());
                assert(file.bindings.deep_view() =~= Seq::<source::BindingView>::empty());
                file
            },
        };
        let mut files = self.take_files();
        index::put_file(&mut files, file);
        self.replace_files(files);
    }

    /// Puts the text that an editor holds into the index, unless a later version is there.
    pub fn update_text(&mut self, uri: &str, text: String, version: Option<i32>)
        requires
            old(self).deep_view().snapshot.generation < u64::MAX,
        ensures
            exists|held: Seq<char>, path: Option<Seq<char>>, path_uri: Option<Seq<char>>|
                old(self).deep_view().is_held(uri@, held) && urls::is_place(held, path, path_uri)
                    && final(self).deep_view() == old(self).deep_view().updated(
                    held,
                    path,
                    #[trigger] urls::canonical(held, path, path_uri),
                    text@,
                    version,
                ),
    {
        let held = self.snapshot.held_uri(uri, self.platform);
        let (path, path_uri) = urls::find_place(held.as_str());
        let canonical = urls::canonical_file_uri(held.as_str(), &path, &path_uri);
        self.update_located(
            held.as_str(),
            text::borrowed(&path),
            canonical.as_str(),
            text,
            version,
        );
    }

    /// Reads the file that an editor calls `uri` from disk, after the editor closed it.
    pub fn close_document(&mut self, uri: &str, file: &DiskFile)
        requires
            old(self).deep_view().snapshot.generation < u64::MAX,
        ensures
            exists|held: Seq<char>| #[trigger]
                old(self).deep_view().is_held(uri@, held) && final(self).deep_view() == old(
                    self,
                ).deep_view().refreshed(held, file.deep_view()),
    {
        let held = self.snapshot.held_uri(uri, self.platform);
        assert(old(self).deep_view().is_held(uri@, held@));
        self.close_held(held.as_str(), file);
    }

    /// Reads the file kept under `uri` from disk, after an editor closed it.
    pub fn close_held(&mut self, uri: &str, file: &DiskFile)
        requires
            old(self).deep_view().snapshot.generation < u64::MAX,
        ensures
            final(self).deep_view() == old(self).deep_view().refreshed(uri@, file.deep_view()),
    {
        let found = self.parse_disk_file(file);
        let mut files = self.take_files();
        match found {
            Some(found) => {
                if !text::same(found.uri.as_str(), uri) {
                    index::drop_file(&mut files, uri);
                }
                index::put_file(&mut files, found);
            },
            None => index::drop_file(&mut files, uri),
        }
        self.replace_files(files);
    }

    /// Reads a file from disk after it changed, which is kept under `held`, and says what is wrong
    /// with it as a dictionary.
    pub fn refresh_held(&mut self, file: &DiskFile, held: &str) -> (issue: Option<DictionaryIssue>)
        requires
            old(self).deep_view().snapshot.generation < u64::MAX,
        ensures
            match file.deep_view().uri {
                None => issue is None && final(self).deep_view() == old(self).deep_view(),
                Some(_) => issue.deep_view() == old(self).deep_view().dictionary_issue(
                    file.deep_view(),
                ) && final(self).deep_view() == old(self).deep_view().refreshed(
                    held@,
                    file.deep_view(),
                ),
            },
    {
        match &file.uri {
            None => None,
            Some(_) => {
                let issue = self.find_issue(file);
                self.close_held(held, file);
                issue
            },
        }
    }

    /// Reads a file from disk after it changed, and says what is wrong with it as a dictionary.
    pub fn refresh_disk_path(&mut self, file: &DiskFile) -> (issue: Option<DictionaryIssue>)
        requires
            old(self).deep_view().snapshot.generation < u64::MAX,
        ensures
            match file.deep_view().uri {
                None => issue is None && final(self).deep_view() == old(self).deep_view(),
                Some(uri) => issue.deep_view() == old(self).deep_view().dictionary_issue(
                    file.deep_view(),
                ) && exists|held: Seq<char>| #[trigger]
                    old(self).deep_view().is_held(uri, held) && final(self).deep_view() == old(
                        self,
                    ).deep_view().refreshed(held, file.deep_view()),
            },
    {
        match &file.uri {
            None => None,
            Some(uri) => {
                let held = self.snapshot.held_uri(uri.as_str(), self.platform);
                assert(old(self).deep_view().is_held(uri@, held@));
                self.refresh_held(file, held.as_str())
            },
        }
    }

    /// What is wrong with the dictionary file, where it is one.
    pub fn find_issue(&self, file: &DiskFile) -> (issue: Option<DictionaryIssue>)
        ensures
            issue.deep_view() == self.deep_view().dictionary_issue(file.deep_view()),
    {
        let identity = match self.identity(file.path.as_str()) {
            None => {
                return None;
            },
            Some(identity) => identity,
        };
        match &file.text {
            Err(reason) => {
                let mut message = "could not read dictionary: ".to_owned();
                message.append(reason.as_str());
                Some(
                    DictionaryIssue {
                        path: file.path.clone(),
                        message,
                        line: None,
                        column: None,
                    },
                )
            },
            Ok(text) => match dictionary::parse_dictionary(
                "",
                identity.locale.as_str(),
                text.as_str(),
                self.config.key_separator.as_str(),
            ) {
                Ok(_) => None,
                Err(error) => {
                    let (line, column) = match &error {
                        dictionary::DictionaryError::InvalidJson(fault) => (
                            Some(fault.line),
                            Some(fault.column),
                        ),
                        dictionary::DictionaryError::Parser => (None, None),
                    };
                    Some(
                        DictionaryIssue {
                            path: file.path.clone(),
                            message: error.message(),
                            line,
                            column,
                        },
                    )
                },
            },
        }
    }

    /// The first issue among what a walk through the dictionaries comes to.
    pub fn first_dictionary_issue(&self, walk: &[Walked]) -> (issue: Option<DictionaryIssue>)
        ensures
            issue.deep_view() == self.deep_view().first_issue(walk.deep_view(), 0),
    {
        let ghost view = self.deep_view();
        let ghost all = walk.deep_view();
        let mut n: usize = 0;
        while n < walk.len()
            invariant
                n <= walk@.len(),
                all == walk.deep_view(),
                view == self.deep_view(),
                view.first_issue(all, 0) == view.first_issue(all, n as int),
            decreases walk@.len() - n,
        {
            assert(all[n as int] == walk@[n as int].deep_view());
            match &walk[n] {
                Walked::Fault => {
                    return None;
                },
                Walked::File(file) => {
                    if self.is_dictionary_path(file.path.as_str()) && file.text.is_ok()
                        && file.uri.is_none() {
                        return None;
                    }
                    let issue = self.find_issue(file);
                    if issue.is_some() {
                        return issue;
                    }
                },
            }
            n += 1;
        }
        None
    }

    /// Whether one of the files that are indexed is a dictionary of the default locale.
    fn finds_default_locale(&self, files: &[DiskFile]) -> (found: bool)
        ensures
            found == self.deep_view().has_default_locale(files.deep_view()),
    {
        let ghost view = self.deep_view();
        let ghost all = files.deep_view();
        let mut n: usize = 0;
        while n < files.len()
            invariant
                n <= files@.len(),
                all == files.deep_view(),
                view == self.deep_view(),
                forall|i: int|
                    0 <= i < n ==> !(view.disk_contribution(#[trigger] all[i]) is Some && (
                    view.identity(all[i].path) matches Some(identity) && identity.locale
                        == view.config.default_locale)),
            decreases files@.len() - n,
        {
            assert(all[n as int] == files@[n as int].deep_view());
            if let Some(identity) = self.identity(files[n].path.as_str()) {
                if text::same(identity.locale.as_str(), self.config.default_locale.as_str())
                    && self.parse_disk_file(&files[n]).is_some() {
                    return true;
                }
            }
            n += 1;
        }
        false
    }

    /// The workspace of a configuration on a platform, given the files on disk and what a walk
    /// through the directory of the dictionaries comes to.
    pub fn load_on(
        platform: Platform,
        root: String,
        config: Config,
        preferences: WorkspacePreferences,
        files: &[DiskFile],
        walk: &[Walked],
    ) -> (loaded: Result<Self, ConfigError>)
        ensures
            loads(
                platform,
                root@,
                config.deep_view(),
                preferences,
                files.deep_view(),
                walk.deep_view(),
                loaded,
            ),
    {
        let ghost fresh = fresh_workspace(platform, root@, config.deep_view(), preferences);
        let mut workspace = match WorkspaceIndex::new_on(platform, root, config, preferences) {
            Ok(workspace) => workspace,
            Err(fault) => {
                return Err(fault);
            },
        };
        if let Some(issue) = workspace.first_dictionary_issue(walk) {
            return Err(
                ConfigError::InvalidDictionary {
                    path: issue.path,
                    message: issue.message,
                    line: issue.line,
                    column: issue.column,
                },
            );
        }
        if !workspace.finds_default_locale(files) {
            return Err(
                ConfigError::MissingDefaultLocale(workspace.config.default_locale.clone()),
            );
        }
        assert(files.deep_view().len() == files@.len());
        workspace.rescan(files);
        Ok(workspace)
    }

    /// The workspace with the index of the files on disk: none where its configuration, one of its
    /// dictionaries, or the dictionary of the default locale is missing or at fault.
    pub fn load_with_preferences(
        root: String,
        config: Config,
        preferences: WorkspacePreferences,
        files: &[DiskFile],
        walk: &[Walked],
    ) -> (loaded: Result<Self, ConfigError>)
        ensures
            exists|platform: Platform| #[trigger]
                path::is_here(platform) && loads(
                    platform,
                    root@,
                    config.deep_view(),
                    preferences,
                    files.deep_view(),
                    walk.deep_view(),
                    loaded,
                ),
    {
        WorkspaceIndex::load_on(path::platform_here(), root, config, preferences, files, walk)
    }

    /// The workspace as a user finds it who has chosen nothing.
    pub fn load(root: String, config: Config, files: &[DiskFile], walk: &[Walked]) -> (loaded:
        Result<Self, ConfigError>)
        ensures
            exists|platform: Platform| #[trigger]
                path::is_here(platform) && loads(
                    platform,
                    root@,
                    config.deep_view(),
                    (WorkspacePreferences { show_unused_keys: true }),
                    files.deep_view(),
                    walk.deep_view(),
                    loaded,
                ),
    {
        let preferences = WorkspacePreferences { show_unused_keys: true };
        WorkspaceIndex::load_with_preferences(root, config, preferences, files, walk)
    }
}

/// Whether `loaded` is what comes of loading a workspace.
pub open spec fn loads(
    platform: Platform,
    root: Seq<char>,
    config: config::ConfigView,
    preferences: WorkspacePreferences,
    files: Seq<DiskView>,
    walk: Seq<WalkedView>,
    loaded: Result<WorkspaceIndex, ConfigError>,
) -> bool {
    let fresh = fresh_workspace(platform, root, config, preferences);
    &&& config::fault_of(loaded) == load_fault(platform, root, config, preferences, files, walk)
    &&& loaded matches Ok(loaded) ==> loaded.deep_view() == fresh.with_files(
        fresh.disk_contributions(files, files.len() as int),
    )
}

/// A workspace without files.
pub open spec fn fresh_workspace(
    platform: Platform,
    root: Seq<char>,
    config: config::ConfigView,
    preferences: WorkspacePreferences,
) -> WorkspaceView {
    WorkspaceView {
        platform,
        root,
        config,
        preferences,
        snapshot: index::SnapshotView { generation: 0, files: Seq::empty() },
    }
}

/// Why a workspace cannot be loaded.
pub open spec fn load_fault(
    platform: Platform,
    root: Seq<char>,
    config: config::ConfigView,
    preferences: WorkspacePreferences,
    files: Seq<DiskView>,
    walk: Seq<WalkedView>,
) -> Option<config::ConfigErrorView> {
    let fresh = fresh_workspace(platform, root, config, preferences);
    match config::config_fault(config) {
        Some(fault) => Some(fault),
        None => match fresh.first_issue(walk, 0) {
            Some(issue) => Some(
                config::ConfigErrorView::InvalidDictionary {
                    path: issue.path,
                    message: issue.message,
                    line: issue.line,
                    column: issue.column,
                },
            ),
            None => if fresh.has_default_locale(files) {
                None
            } else {
                Some(config::ConfigErrorView::MissingDefaultLocale(config.default_locale))
            },
        },
    }
}

/// The entries in a namespace.
fn put_in_namespace(entries: Vec<DictionaryEntry>, namespace: &Option<String>) -> (result: Vec<
    DictionaryEntry,
>)
    ensures
        result.deep_view() == entries.deep_view().map_values(
            |entry: dictionary::EntryView| in_namespace(entry, namespace.deep_view()),
        ),
{
    let ghost wanted = namespace.deep_view();
    let ghost all = entries.deep_view().map_values(
        |entry: dictionary::EntryView| in_namespace(entry, wanted),
    );
    let mut result: Vec<DictionaryEntry> = Vec::new();
    assert(result.deep_view() =~= all.take(0));
    let mut n: usize = 0;
    while n < entries.len()
        invariant
            n <= entries@.len(),
            wanted == namespace.deep_view(),
            all == entries.deep_view().map_values(
                |entry: dictionary::EntryView| in_namespace(entry, wanted),
            ),
            result.deep_view() == all.take(n as int),
        decreases entries@.len() - n,
    {
        let ghost before = result.deep_view();
        let mut entry = entries[n].clone();
        entry.namespace = text::copy(namespace);
        assert(entries.deep_view()[n as int] == entries@[n as int].deep_view());
        assert(entry.deep_view() == all[n as int]);
        result.push(entry);
        assert(result.deep_view() =~= before.push(all[n as int]));
        assert(all.take(n + 1) =~= before.push(all[n as int]));
        n += 1;
    }
    assert(all.take(n as int) =~= all);
    result
}

} // verus!
