//! What a workspace tells of itself.
use crate::dictionary;
use crate::index;
use crate::index::FileContribution;
use crate::names;
use crate::path;
use crate::pattern;
use crate::pattern::DictionaryIdentity;
use crate::sort;
use crate::sort::Ranked;
use crate::text;
use crate::urls;
use crate::workspace;
use crate::workspace::WorkspaceIndex;
use vstd::prelude::*;

verus! {

/// What a workspace tells of itself.
#[derive(Debug)]
pub struct WorkspaceStatus {
    pub version: u8,
    pub workspace_root: String,
    pub config_path: String,
    pub default_locale: String,
    pub default_dictionary_path: Option<String>,
    pub dictionary_root_path: String,
    pub dictionary_file_count: usize,
    pub total_key_count: usize,
    pub unused_key_count: usize,
    pub generation: u64,
}

/// What a `WorkspaceStatus` holds.
pub struct StatusView {
    pub version: u8,
    pub workspace_root: Seq<char>,
    pub config_path: Seq<char>,
    pub default_locale: Seq<char>,
    pub default_dictionary_path: Option<Seq<char>>,
    pub dictionary_root_path: Seq<char>,
    pub dictionary_file_count: int,
    pub total_key_count: int,
    pub unused_key_count: int,
    pub generation: u64,
}

impl DeepView for WorkspaceStatus {
    type V = StatusView;

    open spec fn deep_view(&self) -> StatusView {
        StatusView {
            version: self.version,
            workspace_root: self.workspace_root@,
            config_path: self.config_path@,
            default_locale: self.default_locale@,
            default_dictionary_path: self.default_dictionary_path.deep_view(),
            dictionary_root_path: self.dictionary_root_path@,
            dictionary_file_count: self.dictionary_file_count as int,
            total_key_count: self.total_key_count as int,
            unused_key_count: self.unused_key_count as int,
            generation: self.generation,
        }
    }
}

/// A dictionary file and what its path says.
#[derive(Debug)]
pub struct DictionaryPath {
    pub path: String,
    pub components: Vec<String>,
    pub identity: DictionaryIdentity,
}

/// What a `DictionaryPath` holds.
pub struct DictionaryPathView {
    pub path: Seq<char>,
    pub components: Seq<Seq<char>>,
    pub identity: pattern::IdentityView,
}

impl DeepView for DictionaryPath {
    type V = DictionaryPathView;

    open spec fn deep_view(&self) -> DictionaryPathView {
        DictionaryPathView {
            path: self.path@,
            components: self.components.deep_view(),
            identity: self.identity.deep_view(),
        }
    }
}

impl Ranked for DictionaryPath {
    /// Dictionaries come in the order of their paths.
    open spec fn ahead(first: DictionaryPathView, second: DictionaryPathView) -> bool {
        path::path_ahead(first.components, second.components)
    }

    proof fn ahead_one_way(first: DictionaryPathView, second: DictionaryPathView) {
        path::path_ahead_total(first.components, second.components);
    }

    proof fn ahead_through(
        first: DictionaryPathView,
        second: DictionaryPathView,
        third: DictionaryPathView,
    ) {
        path::path_ahead_total(first.components, second.components);
        path::path_ahead_total(second.components, third.components);
        path::path_ahead_total(first.components, third.components);
        if path::path_ahead(first.components, second.components) && path::path_ahead(
            second.components,
            third.components,
        ) {
            path::path_ahead_transitive(first.components, second.components, third.components);
        }
    }

    fn is_ahead(&self, other: &Self) -> (found: bool) {
        path::comes_before(&self.components, &other.components)
    }
}

/// The dictionaries among the first `n` paths.
pub open spec fn dictionaries_among(
    workspace: workspace::WorkspaceView,
    paths: Seq<Option<Seq<char>>>,
    n: int,
) -> Seq<DictionaryPathView>
    decreases n,
{
    if n <= 0 {
        Seq::empty()
    } else {
        let front = dictionaries_among(workspace, paths, n - 1);
        match paths[n - 1] {
            None => front,
            Some(path) => match workspace.identity(path) {
                None => front,
                Some(identity) => front.push(
                    DictionaryPathView {
                        path,
                        components: path::folded(
                            path::components(path, workspace.platform),
                            workspace.platform,
                        ),
                        identity,
                    },
                ),
            },
        }
    }
}

/// The first `n` dictionaries without those at the path of the one before.
pub open spec fn without_repeats(all: Seq<DictionaryPathView>, n: int) -> Seq<DictionaryPathView>
    decreases n,
{
    if n <= 0 {
        Seq::empty()
    } else {
        let front = without_repeats(all, n - 1);
        if front.len() > 0 && front.last().components == all[n - 1].components {
            front
        } else {
            front.push(all[n - 1])
        }
    }
}

/// The dictionaries of a workspace, by path.
pub open spec fn dictionary_paths(
    workspace: workspace::WorkspaceView,
    paths: Seq<Option<Seq<char>>>,
) -> Seq<DictionaryPathView> {
    let all = sort::sorted::<DictionaryPath>(
        dictionaries_among(workspace, paths, paths.len() as int),
    );
    without_repeats(all, all.len() as int)
}

/// The path of the first of `all[from..]` with a locale and a namespace.
pub open spec fn path_with(
    all: Seq<DictionaryPathView>,
    locale: Seq<char>,
    namespace: Option<Seq<char>>,
    from: int,
) -> Option<Seq<char>>
    decreases all.len() - from,
{
    if from >= all.len() {
        None
    } else if all[from].identity.locale == locale && all[from].identity.namespace == namespace {
        Some(all[from].path)
    } else {
        path_with(all, locale, namespace, from + 1)
    }
}

/// Whether one of the first `n` entries has the key and the namespace of that at `n`.
pub open spec fn is_counted(entries: Seq<dictionary::EntryView>, n: int) -> bool {
    exists|i: int|
        0 <= i < n && (#[trigger] entries[i]).key == entries[n].key && entries[i].namespace
            == entries[n].namespace
}

/// How many keys the first `n` entries have.
pub open spec fn key_count(entries: Seq<dictionary::EntryView>, n: int) -> int
    decreases n,
{
    if n <= 0 {
        0
    } else if is_counted(entries, n - 1) {
        key_count(entries, n - 1)
    } else {
        key_count(entries, n - 1) + 1
    }
}

/// How many of the keys of the first `n` entries are not used.
pub open spec fn unused_count(
    workspace: workspace::WorkspaceView,
    entries: Seq<dictionary::EntryView>,
    n: int,
) -> int
    decreases n,
{
    if n <= 0 {
        0
    } else if is_counted(entries, n - 1) || index::is_used(
        workspace.snapshot.occurrences_in(entries[n - 1].namespace),
        entries[n - 1].key,
        workspace.config.key_separator,
    ) {
        unused_count(workspace, entries, n - 1)
    } else {
        unused_count(workspace, entries, n - 1) + 1
    }
}

/// What a workspace tells of itself, given the paths of its files.
pub open spec fn status_of(
    workspace: workspace::WorkspaceView,
    config_path: Seq<char>,
    paths: Seq<Option<Seq<char>>>,
) -> StatusView {
    let found = dictionary_paths(workspace, paths);
    let leaves = index::default_leaves(workspace.snapshot, workspace.config.default_locale);
    StatusView {
        version: 1,
        workspace_root: names::shown(workspace.root),
        config_path: names::shown(config_path),
        default_locale: workspace.config.default_locale,
        default_dictionary_path: match path_with(
            found,
            workspace.config.default_locale,
            workspace.config.default_namespace,
            0,
        ) {
            Some(path) => Some(names::shown(path)),
            None => None,
        },
        dictionary_root_path: names::shown(workspace.dictionary_root()),
        dictionary_file_count: found.len() as int,
        total_key_count: key_count(leaves, leaves.len() as int),
        unused_key_count: unused_count(workspace, leaves, leaves.len() as int),
        generation: workspace.snapshot.generation,
    }
}

/// The dictionaries of a workspace, by path.
fn find_dictionaries(workspace: &WorkspaceIndex, paths: &[Option<String>]) -> (found: Vec<
    DictionaryPath,
>)
    ensures
        found.deep_view() == dictionary_paths(workspace.deep_view(), paths.deep_view()),
{
    let ghost view = workspace.deep_view();
    let ghost all = paths.deep_view();
    assert(all.len() == paths@.len());
    let mut among: Vec<DictionaryPath> = Vec::new();
    assert(among.deep_view() =~= Seq::<DictionaryPathView>::empty());
    let mut n: usize = 0;
    while n < paths.len()
        invariant
            n <= paths@.len(),
            view == workspace.deep_view(),
            all == paths.deep_view(),
            among.deep_view() == dictionaries_among(view, all, n as int),
        decreases paths@.len() - n,
    {
        assert(all[n as int] == paths@[n as int].deep_view());
        if let Some(path) = &paths[n] {
            if let Some(identity) = workspace.identity(path.as_str()) {
                let ghost before = among.deep_view();
                let one = DictionaryPath {
                    path: path.clone(),
                    components: path::folded_in(path.as_str(), workspace.platform()),
                    identity,
                };
                among.push(one);
                assert(among.deep_view() =~= before.push(one.deep_view()));
            }
        }
        n += 1;
    }
    let sorted = sort::sort(among);
    let ghost order = sorted.deep_view();
    assert(order.len() == sorted@.len());
    let mut found: Vec<DictionaryPath> = Vec::new();
    assert(found.deep_view() =~= Seq::<DictionaryPathView>::empty());
    let mut m: usize = 0;
    while m < sorted.len()
        invariant
            m <= sorted@.len(),
            order == sorted.deep_view(),
            found.deep_view() == without_repeats(order, m as int),
        decreases sorted@.len() - m,
    {
        assert(order[m as int] == sorted@[m as int].deep_view());
        let one = &sorted[m];
        let count: usize = found.len();
        let ghost before = found.deep_view();
        assert(before.len() == count);
        assert(count > 0 ==> before.last() == found@[count - 1].deep_view());
        if count == 0 || !path::same_components(&found[count - 1].components, &one.components) {
            let copy = DictionaryPath {
                path: one.path.clone(),
                components: text::copies(&one.components),
                identity: one.identity.clone(),
            };
            found.push(copy);
            assert(found.deep_view() =~= before.push(order[m as int]));
        }
        m += 1;
    }
    found
}

/// The path of the first dictionary with a locale and a namespace.
fn find_path(found: &[DictionaryPath], locale: &str, namespace: &Option<String>) -> (path: Option<
    String,
>)
    ensures
        path.deep_view() == path_with(
            found.deep_view(),
            locale@,
            namespace.deep_view(),
            0,
        ),
{
    let ghost all = found.deep_view();
    let ghost wanted = namespace.deep_view();
    let mut n: usize = 0;
    while n < found.len()
        invariant
            n <= found@.len(),
            all == found.deep_view(),
            wanted == namespace.deep_view(),
            path_with(all, locale@, wanted, 0) == path_with(all, locale@, wanted, n as int),
        decreases found@.len() - n,
    {
        assert(all[n as int] == found@[n as int].deep_view());
        let identity = &found[n].identity;
        if text::same(identity.locale.as_str(), locale) && index::same_namespace(
            &identity.namespace,
            text::borrowed(namespace),
        ) {
            return Some(found[n].path.clone());
        }
        n += 1;
    }
    None
}

/// How many keys a workspace has in the default locale, and how many of them are not used.
fn count_keys(workspace: &WorkspaceIndex) -> (counts: (usize, usize))
    ensures
        ({
            let leaves = index::default_leaves(
                workspace.deep_view().snapshot,
                workspace.deep_view().config.default_locale,
            );
            &&& counts.0 == key_count(leaves, leaves.len() as int)
            &&& counts.1 == unused_count(workspace.deep_view(), leaves, leaves.len() as int)
        }),
{
    let ghost view = workspace.deep_view();
    let separator = workspace.config().key_separator.as_str();
    let entries = workspace.snapshot().default_locale_leaf_entries(
        workspace.config().default_locale.as_str(),
    );
    let ghost all = entries.deep_view();
    assert(all.len() == entries@.len());
    let mut total: usize = 0;
    let mut unused: usize = 0;
    let mut n: usize = 0;
    while n < entries.len()
        invariant
            n <= entries@.len(),
            view == workspace.deep_view(),
            separator@ == view.config.key_separator,
            all == entries.deep_view(),
            unused <= total <= n,
            total == key_count(all, n as int),
            unused == unused_count(view, all, n as int),
        decreases entries@.len() - n,
    {
        let entry = entries[n];
        assert(all[n as int] == entry.deep_view());
        let mut counted: bool = false;
        let mut k: usize = n;
        // Entries of one key stand together.
        while k > 0
            invariant
                k <= n < entries@.len(),
                all == entries.deep_view(),
                all[n as int] == entry.deep_view(),
                counted == exists|i: int|
                    k <= i < n && (#[trigger] all[i]).key == all[n as int].key && all[i].namespace
                        == all[n as int].namespace,
            decreases k,
        {
            let other = entries[k - 1];
            assert(all[k - 1] == other.deep_view());
            if other.key.same(&entry.key) && index::same_namespace(
                &other.namespace,
                text::borrowed(&entry.namespace),
            ) {
                counted = true;
            }
            k -= 1;
        }
        assert(counted == is_counted(all, n as int));
        if !counted {
            total += 1;
            if !workspace.snapshot().is_leaf_entry_used(entry, separator) {
                unused += 1;
            }
        }
        n += 1;
    }
    (total, unused)
}

impl WorkspaceStatus {
    /// What a workspace tells of itself, given the paths of its files.
    pub fn with_paths(
        workspace: &WorkspaceIndex,
        config_path: &str,
        paths: &[Option<String>],
    ) -> (status: Self)
        ensures
            status.deep_view() == status_of(
                workspace.deep_view(),
                config_path@,
                paths.deep_view(),
            ),
    {
        let found = find_dictionaries(workspace, paths);
        assert(found.deep_view().len() == found@.len());
        let config = workspace.config();
        let (total_key_count, unused_key_count): (usize, usize) = count_keys(workspace);
        WorkspaceStatus {
            version: 1,
            workspace_root: names::show(workspace.root()),
            config_path: names::show(config_path),
            default_locale: config.default_locale.clone(),
            default_dictionary_path: match find_path(
                &found,
                config.default_locale.as_str(),
                &config.default_namespace,
            ) {
                Some(path) => Some(names::show(path.as_str())),
                None => None,
            },
            dictionary_root_path: names::show(workspace.dictionary_root().as_str()),
            dictionary_file_count: found.len(),
            total_key_count,
            unused_key_count,
            generation: workspace.snapshot().generation(),
        }
    }

    /// What a workspace tells of itself.
    pub fn from_workspace(workspace: &WorkspaceIndex, config_path: &str) -> (status: Self)
        ensures
            exists|paths: Seq<Option<Seq<char>>>|
                are_located(workspace.deep_view().snapshot.files, paths) && status.deep_view()
                    == #[trigger] status_of(workspace.deep_view(), config_path@, paths),
    {
        let files = workspace.snapshot().files();
        assert(files.deep_view().len() == files@.len());
        let paths = paths_of(files);
        assert(paths.deep_view().len() == paths@.len());
        WorkspaceStatus::with_paths(workspace, config_path, &paths)
    }
}

/// Whether `paths` are those that the URIs of files stand for.
pub open spec fn are_located(
    files: Seq<index::FileView>,
    paths: Seq<Option<Seq<char>>>,
) -> bool {
    &&& paths.len() == files.len()
    &&& forall|i: int| 0 <= i < paths.len() ==> urls::is_path(files[i].uri, #[trigger] paths[i])
}

/// The paths of files, as far as their URIs are those of paths.
pub(crate) fn paths_of(files: &[FileContribution]) -> (paths: Vec<Option<String>>)
    ensures
        are_located(files.deep_view(), paths.deep_view()),
{
    let ghost all = files.deep_view();
    let mut paths: Vec<Option<String>> = Vec::new();
    let mut n: usize = 0;
    while n < files.len()
        invariant
            n <= files@.len(),
            all == files.deep_view(),
            paths@.len() == n,
            forall|i: int|
                0 <= i < n ==> urls::is_path(all[i].uri, #[trigger] paths.deep_view()[i]),
        decreases files@.len() - n,
    {
        assert(all[n as int] == files@[n as int].deep_view());
        let ghost before = paths.deep_view();
        let path = urls::find_path(files[n].uri.as_str());
        paths.push(path);
        assert(paths.deep_view() =~= before.push(path.deep_view()));
        n += 1;
    }
    paths
}

} // verus!
