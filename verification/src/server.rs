//! The server: the workspaces it holds, and what it does when an editor speaks.
use crate::chars;
use crate::commands;
use crate::commands::{CompletionList, DocumentKeysResult};
use crate::config;
use crate::config::ConfigError;
use crate::diagnostics;
use crate::diagnostics::{DiagnosticCache, FileDiagnostics};
use crate::edit;
use crate::edit::{PreparedEdit, TextChange};
use crate::issue;
use crate::issue::WorkspaceIssue;
use crate::key;
use crate::names;
use crate::navigation;
use crate::path;
use crate::path::Platform;
use crate::position;
use crate::position::{Location, Position};
use crate::protocol;
use crate::protocol::{LogLevel, Outgoing};
use crate::sort;
use crate::sort::Ranked;
use crate::text;
use crate::urls;
use crate::workspace;
use crate::workspace::{DiskFile, WorkspaceIndex, WorkspacePreferences};
use vstd::prelude::*;

verus! {

impl Ranked for WorkspaceIndex {
    /// The deeper a workspace lies, the earlier it comes.
    open spec fn ahead(
        first: workspace::WorkspaceView,
        second: workspace::WorkspaceView,
    ) -> bool {
        first.depth() > second.depth()
    }

    proof fn ahead_one_way(first: workspace::WorkspaceView, second: workspace::WorkspaceView) {
    }

    proof fn ahead_through(
        first: workspace::WorkspaceView,
        second: workspace::WorkspaceView,
        third: workspace::WorkspaceView,
    ) {
    }

    fn is_ahead(&self, other: &Self) -> (found: bool) {
        let first = path::components_in(self.root(), self.platform());
        let second = path::components_in(other.root(), other.platform());
        assert(first.deep_view().len() == first@.len());
        assert(second.deep_view().len() == second@.len());
        first.len() > second.len()
    }
}

/// The name of a configuration file.
pub open spec fn config_name() -> Seq<char> {
    "locale-breeze.json"@
}

/// The first workspace from index `from` on that a path belongs to.
pub open spec fn place_from(
    workspaces: Seq<workspace::WorkspaceView>,
    path: Seq<char>,
    from: int,
) -> Option<int>
    decreases workspaces.len() - from,
{
    if from >= workspaces.len() {
        None
    } else if workspaces[from].contains(path) {
        Some(from)
    } else {
        place_from(workspaces, path, from + 1)
    }
}

/// The workspace that a path belongs to, where there is a path.
pub open spec fn place_of(
    workspaces: Seq<workspace::WorkspaceView>,
    path: Option<Seq<char>>,
) -> Option<int> {
    match path {
        Some(path) => place_from(workspaces, path, 0),
        None => None,
    }
}

/// Whether `held` is the URI under which the workspace that a path belongs to keeps the file that
/// an editor calls `uri`; `uri` itself where there is no such file.
pub open spec fn is_held(
    workspaces: Seq<workspace::WorkspaceView>,
    path: Option<Seq<char>>,
    uri: Seq<char>,
    held: Seq<char>,
) -> bool {
    match place_of(workspaces, path) {
        Some(i) => workspaces[i].is_held(uri, held),
        None => held == uri,
    }
}

pub(crate) proof fn lemma_place(workspaces: Seq<workspace::WorkspaceView>, path: Seq<char>, from: int)
    requires
        0 <= from,
    ensures
        match place_from(workspaces, path, from) {
            Some(i) => from <= i < workspaces.len() && workspaces[i].contains(path) && forall|j: int|
                from <= j < i ==> !(#[trigger] workspaces[j]).contains(path),
            None => forall|j: int|
                from <= j < workspaces.len() ==> !(#[trigger] workspaces[j]).contains(path),
        },
    decreases workspaces.len() - from,
{
    if from < workspaces.len() && !workspaces[from].contains(path) {
        lemma_place(workspaces, path, from + 1);
    }
}

/// A workspace that changes keeps its place.
proof fn lemma_ordered_update(
    workspaces: Seq<workspace::WorkspaceView>,
    i: int,
    workspace: workspace::WorkspaceView,
)
    requires
        sort::is_ordered::<WorkspaceIndex>(workspaces),
        0 <= i < workspaces.len(),
        workspace.root == workspaces[i].root,
        workspace.platform == workspaces[i].platform,
    ensures
        sort::is_ordered::<WorkspaceIndex>(workspaces.update(i, workspace)),
{
    let changed = workspaces.update(i, workspace);
    assert forall|a: int, b: int| 0 <= a < b < changed.len() implies !<WorkspaceIndex as Ranked>::ahead(
        changed[b],
        changed[a],
    ) by {
        assert(!<WorkspaceIndex as Ranked>::ahead(workspaces[b], workspaces[a]));
    }
}

/// Whether one of the workspaces has a root.
pub open spec fn has_root(
    workspaces: Seq<workspace::WorkspaceView>,
    root: Seq<char>,
    platform: Platform,
) -> bool {
    exists|i: int|
        0 <= i < workspaces.len() && path::is_same((#[trigger] workspaces[i]).root, root, platform)
}

/// Whether one of the paths is the path.
pub open spec fn has_path(paths: Seq<Seq<char>>, path: Seq<char>, platform: Platform) -> bool {
    exists|i: int| 0 <= i < paths.len() && path::is_equal(#[trigger] paths[i], path, platform)
}

/// What a `Server` holds.
pub struct ServerView {
    pub platform: Platform,
    pub workspaces: Seq<workspace::WorkspaceView>,
    pub roots: Seq<Seq<char>>,
    pub config_override: Option<Seq<char>>,
    pub preferences: WorkspacePreferences,
    pub published: Seq<diagnostics::KnownView>,
}

impl ServerView {
    /// The configuration file of a root.
    pub open spec fn config_path_for(self, root: Seq<char>) -> Seq<char> {
        match self.config_override {
            Some(path) => path,
            None => path::below(root, config_name(), self.platform),
        }
    }

    /// The server after a root was noted.
    pub open spec fn noting(self, root: Seq<char>) -> ServerView {
        ServerView {
            roots: if has_path(self.roots, root, self.platform) {
                self.roots
            } else {
                self.roots.push(root)
            },
            ..self
        }
    }

    /// Whether every workspace can take another change.
    pub open spec fn can_change(self) -> bool {
        forall|i: int|
            0 <= i < self.workspaces.len() ==> (#[trigger] self.workspaces[i]).snapshot.generation
                < u64::MAX
    }

    /// Whether `sent` tells of workspace `i` after it became `workspace`, and the server is then
    /// `after`.
    pub open spec fn shows(
        self,
        i: int,
        workspace: workspace::WorkspaceView,
        process: u32,
        sent: Seq<protocol::OutgoingView>,
        after: ServerView,
    ) -> bool {
        &&& after == (ServerView {
            workspaces: self.workspaces.update(i, workspace),
            published: after.published,
            ..self
        })
        &&& protocol::reports(
            workspace,
            self.config_path_for(workspace.root),
            process,
            self.published,
            sent,
            after.published,
        )
    }

    /// Whether `sent` and `after` are what comes of the text of a file, where an editor calls it by
    /// `path`, and the path that it is kept under and the URI of that are known.
    pub open spec fn updates(
        self,
        uri: Seq<char>,
        path: Option<Seq<char>>,
        kept: Option<Seq<char>>,
        kept_uri: Option<Seq<char>>,
        text: Seq<char>,
        version: Option<i32>,
        process: u32,
        sent: Seq<protocol::OutgoingView>,
        after: ServerView,
    ) -> bool {
        match place_of(self.workspaces, path) {
            None => sent == Seq::<protocol::OutgoingView>::empty() && after == self,
            Some(i) => self.shows(
                i,
                self.workspaces[i].updated(
                    uri,
                    kept,
                    urls::canonical(uri, kept, kept_uri),
                    text,
                    version,
                ),
                process,
                sent,
                after,
            ),
        }
    }

    /// Whether `sent` and `after` are what comes of changes to a file, where an editor calls it by
    /// `path`, and the path that it is kept under and the URI of that are known. Changes to a text
    /// that is not known come to nothing.
    pub open spec fn edits(
        self,
        uri: Seq<char>,
        path: Option<Seq<char>>,
        kept: Option<Seq<char>>,
        kept_uri: Option<Seq<char>>,
        changes: Seq<edit::ChangeView>,
        version: i32,
        process: u32,
        sent: Seq<protocol::OutgoingView>,
        after: ServerView,
    ) -> bool {
        match place_of(self.workspaces, path) {
            None => sent == Seq::<protocol::OutgoingView>::empty() && after == self,
            Some(i) => match self.workspaces[i].snapshot.file(uri) {
                None => sent == Seq::<protocol::OutgoingView>::empty() && after == self,
                Some(file) => self.updates(
                    uri,
                    path,
                    kept,
                    kept_uri,
                    edit::changed_by(file.text, changes, changes.len() as int),
                    Some(version),
                    process,
                    sent,
                    after,
                ),
            },
        }
    }

    /// Whether `sent` and `after` are what comes of an editor closing a file, given what is on
    /// disk.
    pub open spec fn closes(
        self,
        uri: Seq<char>,
        file: Option<workspace::DiskView>,
        process: u32,
        sent: Seq<protocol::OutgoingView>,
        after: ServerView,
    ) -> bool {
        match file {
            None => sent == Seq::<protocol::OutgoingView>::empty() && after == self,
            Some(file) => match place_from(self.workspaces, file.path, 0) {
                None => sent == Seq::<protocol::OutgoingView>::empty() && after == self,
                Some(i) => self.shows(
                    i,
                    self.workspaces[i].refreshed(uri, file),
                    process,
                    sent,
                    after,
                ),
            },
        }
    }
}

/// What is sent for the first `n` files that nothing is shown in any more.
pub open spec fn emptied(uris: Seq<Seq<char>>, n: int) -> Seq<protocol::OutgoingView>
    decreases n,
{
    if n <= 0 {
        Seq::empty()
    } else {
        emptied(uris, n - 1).push(
            protocol::OutgoingView::Diagnostics(
                diagnostics::FileDiagnosticsView { uri: uris[n - 1], diagnostics: Seq::empty() },
            ),
        )
    }
}

/// Whether `sent` goes on after `front` and takes back what is shown in the files of a workspace.
pub open spec fn clears_one(
    workspace: workspace::WorkspaceView,
    front: Seq<protocol::OutgoingView>,
    known: Seq<diagnostics::KnownView>,
    sent: Seq<protocol::OutgoingView>,
    after: Seq<diagnostics::KnownView>,
) -> bool {
    let uris = diagnostics::files_to_clear(workspace, known);
    &&& sent == front + emptied(uris, uris.len() as int)
    &&& after == diagnostics::cache_without(known, uris, uris.len() as int)
}

/// Whether `sent` takes back what is shown in the files of the first `n` workspaces, so that an
/// editor that knew `before` then knows `after`.
pub open spec fn clears(
    workspaces: Seq<workspace::WorkspaceView>,
    n: int,
    before: Seq<diagnostics::KnownView>,
    sent: Seq<protocol::OutgoingView>,
    after: Seq<diagnostics::KnownView>,
) -> bool
    decreases n,
{
    if n <= 0 {
        sent == Seq::<protocol::OutgoingView>::empty() && after == before
    } else {
        exists|front: Seq<protocol::OutgoingView>, known: Seq<diagnostics::KnownView>|
            #[trigger] clears_one(workspaces[n - 1], front, known, sent, after) && clears(
                workspaces,
                n - 1,
                before,
                front,
                known,
            )
    }
}

/// Whether a workspace has a root.
pub open spec fn with_root(root: Seq<char>, platform: Platform) -> spec_fn(
    workspace::WorkspaceView,
) -> bool {
    |workspace: workspace::WorkspaceView| path::is_same(workspace.root, root, platform)
}

/// Whether a workspace has another root.
pub open spec fn without_root(root: Seq<char>, platform: Platform) -> spec_fn(
    workspace::WorkspaceView,
) -> bool {
    |workspace: workspace::WorkspaceView| !path::is_same(workspace.root, root, platform)
}

/// Whether a path is another one.
pub open spec fn other_than(root: Seq<char>, platform: Platform) -> spec_fn(Seq<char>) -> bool {
    |path: Seq<char>| !path::is_same(path, root, platform)
}

/// Whether `sent` and `after` are what comes of taking a root away.
pub open spec fn drops(
    before: ServerView,
    root: Option<Seq<char>>,
    sent: Seq<protocol::OutgoingView>,
    after: ServerView,
) -> bool {
    match root {
        None => sent == Seq::<protocol::OutgoingView>::empty() && after == before,
        Some(root) => {
            let gone = sort::kept(before.workspaces, with_root(root, before.platform));
            &&& after == (ServerView {
                workspaces: sort::kept(before.workspaces, without_root(root, before.platform)),
                roots: sort::kept(before.roots, other_than(root, before.platform)),
                published: after.published,
                ..before
            })
            &&& clears(gone, gone.len() as int, before.published, sent, after.published)
        },
    }
}

/// Whether `sent` goes on after `front` with what comes of taking a root away.
pub open spec fn drops_next(
    between: ServerView,
    root: Option<Seq<char>>,
    front: Seq<protocol::OutgoingView>,
    sent: Seq<protocol::OutgoingView>,
    after: ServerView,
) -> bool {
    &&& front.is_prefix_of(sent)
    &&& drops(between, root, sent.skip(front.len() as int), after)
}

/// Whether `sent` and `after` are what comes of taking the first `n` roots away, one after the
/// other.
pub open spec fn drops_all(
    before: ServerView,
    roots: Seq<Option<Seq<char>>>,
    n: int,
    sent: Seq<protocol::OutgoingView>,
    after: ServerView,
) -> bool
    decreases n,
{
    if n <= 0 {
        sent == Seq::<protocol::OutgoingView>::empty() && after == before
    } else {
        exists|front: Seq<protocol::OutgoingView>, between: ServerView|
            #[trigger] drops_next(between, roots[n - 1], front, sent, after) && drops_all(
                before,
                roots,
                n - 1,
                front,
                between,
            )
    }
}

/// Whether `sent` and `after` are what comes of taking all workspaces away; their roots are kept.
pub open spec fn empties(
    before: ServerView,
    sent: Seq<protocol::OutgoingView>,
    after: ServerView,
) -> bool {
    &&& after == (ServerView {
        workspaces: Seq::empty(),
        published: after.published,
        ..before
    })
    &&& clears(
        before.workspaces,
        before.workspaces.len() as int,
        before.published,
        sent,
        after.published,
    )
}

/// Whether one of the files is a configuration file.
pub open spec fn concerns_config(uris: Seq<Seq<char>>) -> bool {
    exists|i: int|
        0 <= i < uris.len() && urls::last_segment(#[trigger] uris[i]) == Some(config_name())
}

/// The workspaces that the server holds, the deepest first, and what the editor was told.
#[derive(Debug)]
pub struct Server {
    platform: Platform,
    workspaces: Vec<WorkspaceIndex>,
    roots: Vec<String>,
    config_override: Option<String>,
    preferences: WorkspacePreferences,
    published: DiagnosticCache,
}

impl DeepView for Server {
    type V = ServerView;

    closed spec fn deep_view(&self) -> ServerView {
        ServerView {
            platform: self.platform,
            workspaces: self.workspaces.deep_view(),
            roots: self.roots.deep_view(),
            config_override: self.config_override.deep_view(),
            preferences: self.preferences,
            published: self.published.deep_view(),
        }
    }
}

impl Server {
    #[verifier::type_invariant]
    closed spec fn deepest_first(&self) -> bool {
        sort::is_ordered::<WorkspaceIndex>(self.workspaces.deep_view())
    }

    /// A server without workspaces on a platform.
    pub fn new_on(
        platform: Platform,
        config_override: Option<String>,
        show_unused_keys: bool,
    ) -> (server: Self)
        ensures
            server.deep_view() == (ServerView {
                platform,
                workspaces: Seq::empty(),
                roots: Seq::empty(),
                config_override: config_override.deep_view(),
                preferences: WorkspacePreferences { show_unused_keys },
                published: Seq::empty(),
            }),
    {
        let server = Server {
            platform,
            workspaces: Vec::new(),
            roots: Vec::new(),
            config_override,
            preferences: WorkspacePreferences { show_unused_keys },
            published: DiagnosticCache::new(),
        };
        assert(server.workspaces.deep_view() =~= Seq::<workspace::WorkspaceView>::empty());
        assert(server.roots.deep_view() =~= Seq::<Seq<char>>::empty());
        server
    }

    /// A server without workspaces.
    pub fn new(config_override: Option<String>, show_unused_keys: bool) -> (server: Self)
        ensures
            path::is_here(server.deep_view().platform),
            server.deep_view() == (ServerView {
                platform: server.deep_view().platform,
                workspaces: Seq::empty(),
                roots: Seq::empty(),
                config_override: config_override.deep_view(),
                preferences: WorkspacePreferences { show_unused_keys },
                published: Seq::empty(),
            }),
    {
        Server::new_on(path::platform_here(), config_override, show_unused_keys)
    }

    /// How paths are written.
    pub fn platform(&self) -> (platform: Platform)
        ensures
            platform == self.deep_view().platform,
    {
        self.platform
    }

    pub fn workspaces(&self) -> (workspaces: &[WorkspaceIndex])
        ensures
            workspaces.deep_view() == self.deep_view().workspaces,
    {
        self.workspaces.as_slice()
    }

    pub fn preferences(&self) -> (preferences: WorkspacePreferences)
        ensures
            preferences == self.deep_view().preferences,
    {
        self.preferences
    }

    pub fn config_override(&self) -> (path: Option<&str>)
        ensures
            path.deep_view() == self.deep_view().config_override,
    {
        text::borrowed(&self.config_override)
    }

    /// Whether every workspace can take `count` changes more.
    pub fn has_room(&self, count: u64) -> (found: bool)
        ensures
            found == forall|i: int|
                0 <= i < self.deep_view().workspaces.len() ==> (
                #[trigger] self.deep_view().workspaces[i]).snapshot.generation + count <= u64::MAX,
    {
        let ghost all = self.workspaces.deep_view();
        let mut n: usize = 0;
        while n < self.workspaces.len()
            invariant
                n <= self.workspaces@.len(),
                all == self.workspaces.deep_view(),
                all == self.deep_view().workspaces,
                forall|i: int|
                    0 <= i < n ==> (#[trigger] all[i]).snapshot.generation + count <= u64::MAX,
            decreases self.workspaces@.len() - n,
        {
            assert(all[n as int] == self.workspaces@[n as int].deep_view());
            if self.workspaces[n].snapshot().generation() > u64::MAX - count {
                return false;
            }
            n += 1;
        }
        true
    }

    /// The configuration file of a root.
    pub fn config_path_for(&self, root: &str) -> (path: String)
        ensures
            path@ == self.deep_view().config_path_for(root@),
    {
        match &self.config_override {
            Some(path) => path.clone(),
            None => path::join(root, "locale-breeze.json", self.platform),
        }
    }

    fn find_place(&self, path: &str) -> (place: Option<usize>)
        ensures
            match place {
                Some(i) => place_from(self.deep_view().workspaces, path@, 0) == Some(i as int) && i
                    < self.workspaces@.len(),
                None => place_from(self.deep_view().workspaces, path@, 0) is None,
            },
    {
        let ghost all = self.workspaces.deep_view();
        let mut n: usize = 0;
        while n < self.workspaces.len()
            invariant
                n <= self.workspaces@.len(),
                all == self.workspaces.deep_view(),
                all == self.deep_view().workspaces,
                place_from(all, path@, 0) == place_from(all, path@, n as int),
            decreases self.workspaces@.len() - n,
        {
            assert(all[n as int] == self.workspaces@[n as int].deep_view());
            if self.workspaces[n].contains_path(path) {
                return Some(n);
            }
            n += 1;
        }
        None
    }

    /// The URI under which the file is kept that an editor calls `uri`, given its path.
    fn held_uri(&self, uri: &str, path: Option<&str>) -> (held: String)
        ensures
            is_held(self.deep_view().workspaces, path.deep_view(), uri@, held@),
    {
        let ghost all = self.workspaces.deep_view();
        let found = match path {
            Some(path) => self.find_place(path),
            None => None,
        };
        match found {
            Some(i) => {
                assert(all[i as int] == self.workspaces@[i as int].deep_view());
                let workspace = &self.workspaces[i];
                workspace.snapshot().held_uri(uri, workspace.platform())
            },
            None => uri.to_owned(),
        }
    }

    /// The workspace that a path belongs to: of several, one that lies deepest.
    pub fn workspace_for_path(&self, path: &str) -> (found: Option<&WorkspaceIndex>)
        ensures
            found.deep_view() == match place_from(self.deep_view().workspaces, path@, 0) {
                Some(i) => Some(self.deep_view().workspaces[i]),
                None => None,
            },
            found is None == forall|j: int|
                0 <= j < self.deep_view().workspaces.len() ==> !(
                #[trigger] self.deep_view().workspaces[j]).contains(path@),
            found matches Some(found) ==> forall|j: int|
                0 <= j < self.deep_view().workspaces.len() && (
                #[trigger] self.deep_view().workspaces[j]).contains(path@)
                    ==> self.deep_view().workspaces[j].depth() <= found.deep_view().depth(),
    {
        proof {
            use_type_invariant(self);
            lemma_place(self.deep_view().workspaces, path@, 0);
        }
        let ghost all = self.deep_view().workspaces;
        match self.find_place(path) {
            Some(i) => {
                assert(all[i as int] == self.workspaces@[i as int].deep_view());
                assert forall|j: int| 0 <= j < all.len() && (#[trigger] all[j]).contains(
                    path@,
                ) implies all[j].depth() <= all[i as int].depth() by {
                    if i < j {
                        assert(!<WorkspaceIndex as Ranked>::ahead(all[j], all[i as int]));
                    }
                }
                Some(&self.workspaces[i])
            },
            None => None,
        }
    }

    /// Takes the workspaces out.
    fn take_workspaces(&mut self) -> (workspaces: Vec<WorkspaceIndex>)
        ensures
            workspaces.deep_view() == old(self).deep_view().workspaces,
            sort::is_ordered::<WorkspaceIndex>(workspaces.deep_view()),
            final(self).deep_view() == (ServerView {
                workspaces: Seq::empty(),
                ..old(self).deep_view()
            }),
    {
        proof {
            use_type_invariant(&*self);
        }
        let mut workspaces: Vec<WorkspaceIndex> = Vec::new();
        assert(workspaces.deep_view() =~= Seq::<workspace::WorkspaceView>::empty());
        std::mem::swap(&mut workspaces, &mut self.workspaces);
        workspaces
    }

    /// Puts workspaces in, the deepest of which come first.
    fn put_workspaces(&mut self, workspaces: Vec<WorkspaceIndex>)
        requires
            sort::is_ordered::<WorkspaceIndex>(workspaces.deep_view()),
        ensures
            final(self).deep_view() == (ServerView {
                workspaces: workspaces.deep_view(),
                ..old(self).deep_view()
            }),
    {
        self.workspaces = workspaces;
    }

    /// Takes out what the editor was told.
    fn take_published(&mut self) -> (published: DiagnosticCache)
        ensures
            published.deep_view() == old(self).deep_view().published,
            final(self).deep_view() == (ServerView {
                published: Seq::empty(),
                ..old(self).deep_view()
            }),
    {
        proof {
            use_type_invariant(&*self);
        }
        let mut published = DiagnosticCache::new();
        std::mem::swap(&mut published, &mut self.published);
        published
    }

    /// Puts in what the editor was told.
    fn put_published(&mut self, published: DiagnosticCache)
        ensures
            final(self).deep_view() == (ServerView {
                published: published.deep_view(),
                ..old(self).deep_view()
            }),
    {
        proof {
            use_type_invariant(&*self);
        }
        self.published = published;
    }

    /// Tells of workspace `i`, with the configuration file of a root.
    fn tell_of(&mut self, i: usize, config_path: &str, process: u32) -> (sent: Vec<Outgoing>)
        requires
            i < old(self).deep_view().workspaces.len(),
        ensures
            final(self).deep_view() == (ServerView {
                published: final(self).deep_view().published,
                ..old(self).deep_view()
            }),
            protocol::reports(
                old(self).deep_view().workspaces[i as int],
                config_path@,
                process,
                old(self).deep_view().published,
                sent.deep_view(),
                final(self).deep_view().published,
            ),
    {
        let mut published = self.take_published();
        let ghost all = self.workspaces.deep_view();
        assert(all.len() == self.workspaces@.len());
        assert(all[i as int] == self.workspaces@[i as int].deep_view());
        let sent = protocol::report(&self.workspaces[i], config_path, process, &mut published);
        self.put_published(published);
        sent
    }

    /// Takes in the text of a file that an editor calls by `path`, where the path that it is kept
    /// under and the URI of that are known.
    pub fn update_located(
        &mut self,
        uri: &str,
        path: Option<&str>,
        kept: &Option<String>,
        kept_uri: &Option<String>,
        text: String,
        version: Option<i32>,
        process: u32,
    ) -> (sent: Vec<Outgoing>)
        requires
            old(self).deep_view().can_change(),
        ensures
            old(self).deep_view().updates(
                uri@,
                path.deep_view(),
                kept.deep_view(),
                kept_uri.deep_view(),
                text@,
                version,
                process,
                sent.deep_view(),
                final(self).deep_view(),
            ),
    {
        match self.replace_text(uri, path, kept, kept_uri, text, version) {
            Some(i) => {
                let ghost all = self.workspaces.deep_view();
                assert(all.len() == self.workspaces@.len());
                assert(all[i as int] == self.workspaces@[i as int].deep_view());
                let config_path = self.config_path_for(self.workspaces[i].root());
                let sent = self.tell_of(i, config_path.as_str(), process);
                sent
            },
            None => {
                let sent: Vec<Outgoing> = Vec::new();
                assert(sent.deep_view() =~= Seq::<protocol::OutgoingView>::empty());
                sent
            },
        }
    }

    /// Takes in the text of a file that an editor calls by `path`, where the path that it is kept
    /// under and the URI of that are known, and says in which workspace.
    fn replace_text(
        &mut self,
        uri: &str,
        path: Option<&str>,
        kept: &Option<String>,
        kept_uri: &Option<String>,
        text: String,
        version: Option<i32>,
    ) -> (place: Option<usize>)
        requires
            old(self).deep_view().can_change(),
        ensures
            place_of(old(self).deep_view().workspaces, path.deep_view()) == match place {
                Some(i) => Some(i as int),
                None => None,
            },
            match place {
                None => final(self).deep_view() == old(self).deep_view(),
                Some(i) => i < old(self).deep_view().workspaces.len() && final(self).deep_view() == (
                ServerView {
                    workspaces: old(self).deep_view().workspaces.update(
                        i as int,
                        old(self).deep_view().workspaces[i as int].updated(
                            uri@,
                            kept.deep_view(),
                            urls::canonical(uri@, kept.deep_view(), kept_uri.deep_view()),
                            text@,
                            version,
                        ),
                    ),
                    ..old(self).deep_view()
                }),
            },
    {
        let ghost before = self.deep_view();
        let found = match path {
            Some(path) => self.find_place(path),
            None => None,
        };
        let i: usize = match found {
            Some(i) => i,
            None => {
                return None;
            },
        };
        let canonical = urls::canonical_file_uri(uri, kept, kept_uri);
        let mut workspaces = self.take_workspaces();
        assert(workspaces@.len() == before.workspaces.len());
        assert(before.workspaces[i as int] == workspaces@[i as int].deep_view());
        workspaces[i].update_located(
            uri,
            text::borrowed(kept),
            canonical.as_str(),
            text,
            version,
        );
        assert(workspaces.deep_view() =~= before.workspaces.update(
            i as int,
            workspaces@[i as int].deep_view(),
        ));
        proof {
            lemma_ordered_update(
                before.workspaces,
                i as int,
                workspaces@[i as int].deep_view(),
            );
        }
        self.put_workspaces(workspaces);
        Some(i)
    }

    /// Takes in changes to a file that an editor calls by `path`, where the path that it is kept
    /// under and the URI of that are known.
    pub fn change_located(
        &mut self,
        uri: &str,
        path: Option<&str>,
        kept: &Option<String>,
        kept_uri: &Option<String>,
        changes: &[TextChange],
        version: i32,
        process: u32,
    ) -> (sent: Vec<Outgoing>)
        requires
            old(self).deep_view().can_change(),
        ensures
            old(self).deep_view().edits(
                uri@,
                path.deep_view(),
                kept.deep_view(),
                kept_uri.deep_view(),
                changes.deep_view(),
                version,
                process,
                sent.deep_view(),
                final(self).deep_view(),
            ),
    {
        let ghost all = self.workspaces.deep_view();
        assert(changes.deep_view().len() == changes@.len());
        let found = match path {
            Some(path) => self.find_place(path),
            None => None,
        };
        if let Some(i) = found {
            assert(all[i as int] == self.workspaces@[i as int].deep_view());
            if let Some(text) = self.workspaces[i].snapshot().text(uri) {
                let changed = edit::apply_changes(text.to_owned(), changes);
                return self.update_located(
                    uri,
                    path,
                    kept,
                    kept_uri,
                    changed,
                    Some(version),
                    process,
                );
            }
        }
        let sent: Vec<Outgoing> = Vec::new();
        assert(sent.deep_view() =~= Seq::<protocol::OutgoingView>::empty());
        sent
    }

    /// Takes in what is on disk, after an editor closed a file that is kept under `uri`.
    pub fn close_document(&mut self, uri: &str, file: &Option<DiskFile>, process: u32) -> (sent: Vec<
        Outgoing,
    >)
        requires
            old(self).deep_view().can_change(),
        ensures
            old(self).deep_view().closes(
                uri@,
                file.deep_view(),
                process,
                sent.deep_view(),
                final(self).deep_view(),
            ),
    {
        let ghost before = self.deep_view();
        if let Some(file) = file {
            if let Some(i) = self.find_place(file.path.as_str()) {
                let mut workspaces = self.take_workspaces();
                assert(workspaces@.len() == before.workspaces.len());
                assert(before.workspaces[i as int] == workspaces@[i as int].deep_view());
                workspaces[i].close_held(uri, file);
                assert(workspaces.deep_view() =~= before.workspaces.update(
                    i as int,
                    workspaces@[i as int].deep_view(),
                ));
                proof {
                    lemma_ordered_update(
                        before.workspaces,
                        i as int,
                        workspaces@[i as int].deep_view(),
                    );
                }
                let config_path = self.config_path_for(workspaces[i].root());
                self.put_workspaces(workspaces);
                return self.tell_of(i, config_path.as_str(), process);
            }
        }
        let sent: Vec<Outgoing> = Vec::new();
        assert(sent.deep_view() =~= Seq::<protocol::OutgoingView>::empty());
        sent
    }

    /// Takes in what is on disk, after files under a root changed.
    pub fn refresh_files(&mut self, root: &str, files: &[DiskFile], process: u32) -> (sent: Vec<
        Outgoing,
    >)
        requires
            forall|i: int|
                0 <= i < old(self).deep_view().workspaces.len() ==> (
                #[trigger] old(self).deep_view().workspaces[i]).snapshot.generation + files@.len()
                    <= u64::MAX,
        ensures
            refreshes(
                old(self).deep_view(),
                root@,
                files.deep_view(),
                process,
                sent.deep_view(),
                final(self).deep_view(),
            ),
    {
        let ghost before = self.deep_view();
        assert(files.deep_view().len() == files@.len());
        match self.find_root(root) {
            Some(i) => {
                let mut workspaces = self.take_workspaces();
                assert(workspaces@.len() == before.workspaces.len());
                assert(before.workspaces[i as int] == workspaces@[i as int].deep_view());
                let (mut sent, kept) = refresh_workspace(&mut workspaces[i], files);
                let ghost first = sent.deep_view();
                let ghost all = files.deep_view();
                let ghost helds = kept.deep_view();
                assert(workspaces.deep_view() =~= before.workspaces.update(
                    i as int,
                    workspaces@[i as int].deep_view(),
                ));
                proof {
                    lemma_refreshed_by(
                        before.workspaces[i as int],
                        all,
                        helds,
                        files@.len() as int,
                    );
                    lemma_ordered_update(
                        before.workspaces,
                        i as int,
                        workspaces@[i as int].deep_view(),
                    );
                }
                let config_path = self.config_path_for(workspaces[i].root());
                self.put_workspaces(workspaces);
                let mut more = self.tell_of(i, config_path.as_str(), process);
                let ghost second = more.deep_view();
                sent.append(&mut more);
                assert(sent.deep_view() =~= first + second);
                assert(before.shows(
                    i as int,
                    refreshed_by(before.workspaces[i as int], all, helds, files@.len() as int),
                    process,
                    second,
                    self.deep_view(),
                ));
                sent
            },
            None => {
                let sent: Vec<Outgoing> = Vec::new();
                assert(sent.deep_view() =~= Seq::<protocol::OutgoingView>::empty());
                sent
            },
        }
    }

    fn find_root(&self, root: &str) -> (place: Option<usize>)
        ensures
            root_from(self.deep_view().workspaces, root@, self.deep_view().platform, 0) == match place {
                Some(i) => Some(i as int),
                None => None,
            },
            place matches Some(i) ==> i < self.deep_view().workspaces.len(),
    {
        let ghost all = self.workspaces.deep_view();
        assert(all.len() == self.workspaces@.len());
        let mut n: usize = 0;
        while n < self.workspaces.len()
            invariant
                n <= self.workspaces@.len(),
                all == self.workspaces.deep_view(),
                all == self.deep_view().workspaces,
                all.len() == self.workspaces@.len(),
                root_from(all, root@, self.platform, 0) == root_from(
                    all,
                    root@,
                    self.platform,
                    n as int,
                ),
            decreases self.workspaces@.len() - n,
        {
            assert(all[n as int] == self.workspaces@[n as int].deep_view());
            if path::same_path(self.workspaces[n].root(), root, self.platform) {
                return Some(n);
            }
            n += 1;
        }
        None
    }
}

/// The first workspace from index `from` on that has a root.
pub open spec fn root_from(
    workspaces: Seq<workspace::WorkspaceView>,
    root: Seq<char>,
    platform: Platform,
    from: int,
) -> Option<int>
    decreases workspaces.len() - from,
{
    if from >= workspaces.len() {
        None
    } else if path::is_same(workspaces[from].root, root, platform) {
        Some(from)
    } else {
        root_from(workspaces, root, platform, from + 1)
    }
}

/// A workspace after one file was read from disk, which it keeps under `held`.
pub open spec fn refreshed_once(
    workspace: workspace::WorkspaceView,
    file: workspace::DiskView,
    held: Seq<char>,
) -> workspace::WorkspaceView {
    match file.uri {
        Some(_) => workspace.refreshed(held, file),
        None => workspace,
    }
}

/// A workspace after the first `n` files were read from disk, which it keeps under `helds`.
pub open spec fn refreshed_by(
    workspace: workspace::WorkspaceView,
    files: Seq<workspace::DiskView>,
    helds: Seq<Seq<char>>,
    n: int,
) -> workspace::WorkspaceView
    decreases n,
{
    if n <= 0 {
        workspace
    } else {
        refreshed_once(
            refreshed_by(workspace, files, helds, n - 1),
            files[n - 1],
            helds[n - 1],
        )
    }
}

/// Whether a workspace keeps each of the first `n` files under the URI in `helds` when it is read
/// from disk.
pub open spec fn are_held(
    workspace: workspace::WorkspaceView,
    files: Seq<workspace::DiskView>,
    helds: Seq<Seq<char>>,
    n: int,
) -> bool
    decreases n,
{
    n > 0 ==> {
        let before = refreshed_by(workspace, files, helds, n - 1);
        &&& are_held(workspace, files, helds, n - 1)
        &&& files[n - 1].uri matches Some(uri) ==> before.is_held(uri, helds[n - 1])
    }
}

proof fn lemma_refreshed_by(
    workspace: workspace::WorkspaceView,
    files: Seq<workspace::DiskView>,
    helds: Seq<Seq<char>>,
    n: int,
)
    requires
        0 <= n,
        workspace.snapshot.generation + n <= u64::MAX,
    ensures
        refreshed_by(workspace, files, helds, n).root == workspace.root,
        refreshed_by(workspace, files, helds, n).config == workspace.config,
        refreshed_by(workspace, files, helds, n).platform == workspace.platform,
        refreshed_by(workspace, files, helds, n).snapshot.generation
            <= workspace.snapshot.generation + n,
    decreases n,
{
    if n > 0 {
        lemma_refreshed_by(workspace, files, helds, n - 1);
    }
}

proof fn lemma_refreshed_front(
    workspace: workspace::WorkspaceView,
    files: Seq<workspace::DiskView>,
    helds: Seq<Seq<char>>,
    more: Seq<Seq<char>>,
    n: int,
)
    requires
        n <= helds.len() <= more.len(),
        forall|i: int| 0 <= i < n ==> helds[i] == #[trigger] more[i],
    ensures
        refreshed_by(workspace, files, helds, n) == refreshed_by(workspace, files, more, n),
        are_held(workspace, files, helds, n) == are_held(workspace, files, more, n),
    decreases n,
{
    if n > 0 {
        lemma_refreshed_front(workspace, files, helds, more, n - 1);
    }
}

/// What is sent of the first `n` files as dictionaries: what is wrong with them, or that nothing is
/// any more.
pub open spec fn dictionary_news(
    workspace: workspace::WorkspaceView,
    files: Seq<workspace::DiskView>,
    n: int,
) -> Seq<protocol::OutgoingView>
    decreases n,
{
    if n <= 0 {
        Seq::empty()
    } else {
        let front = dictionary_news(workspace, files, n - 1);
        let file = files[n - 1];
        let issue = if file.uri is Some {
            workspace.dictionary_issue(file)
        } else {
            None
        };
        match issue {
            Some(issue) => front.push(
                protocol::OutgoingView::Issue(issue::dictionary_issue(issue)),
            ),
            None => if workspace.identity(file.path) is Some {
                front.push(
                    protocol::OutgoingView::Issue(
                        issue::cleared("dictionary_invalid"@, Some(names::shown(file.path))),
                    ),
                )
            } else {
                front
            },
        }
    }
}

/// Whether `sent` and `after` are what comes of files under a root that changed on disk.
pub open spec fn refreshes(
    before: ServerView,
    root: Seq<char>,
    files: Seq<workspace::DiskView>,
    process: u32,
    sent: Seq<protocol::OutgoingView>,
    after: ServerView,
) -> bool {
    match root_from(before.workspaces, root, before.platform, 0) {
        None => sent == Seq::<protocol::OutgoingView>::empty() && after == before,
        Some(i) => {
            let news = dictionary_news(before.workspaces[i], files, files.len() as int);
            exists|helds: Seq<Seq<char>>, report: Seq<protocol::OutgoingView>|
                are_held(before.workspaces[i], files, helds, files.len() as int) && sent == news
                    + report && #[trigger] before.shows(
                    i,
                    refreshed_by(before.workspaces[i], files, helds, files.len() as int),
                    process,
                    report,
                    after,
                )
        },
    }
}

/// Takes files on disk in, and says what is wrong with them as dictionaries and under which URIs
/// they are kept.
fn refresh_workspace(workspace: &mut WorkspaceIndex, files: &[DiskFile]) -> (done: (
    Vec<Outgoing>,
    Vec<String>,
))
    requires
        old(workspace).deep_view().snapshot.generation + files@.len() <= u64::MAX,
    ensures
        are_held(
            old(workspace).deep_view(),
            files.deep_view(),
            done.1.deep_view(),
            files@.len() as int,
        ),
        final(workspace).deep_view() == refreshed_by(
            old(workspace).deep_view(),
            files.deep_view(),
            done.1.deep_view(),
            files@.len() as int,
        ),
        done.0.deep_view() == dictionary_news(
            old(workspace).deep_view(),
            files.deep_view(),
            files@.len() as int,
        ),
{
    let ghost first = workspace.deep_view();
    let ghost all = files.deep_view();
    let mut helds: Vec<String> = Vec::new();
    let mut sent: Vec<Outgoing> = Vec::new();
    assert(sent.deep_view() =~= Seq::<protocol::OutgoingView>::empty());
    let mut n: usize = 0;
    while n < files.len()
        invariant
            n <= files@.len(),
            all == files.deep_view(),
            first.snapshot.generation + files@.len() <= u64::MAX,
            helds@.len() == n,
            are_held(first, all, helds.deep_view(), n as int),
            workspace.deep_view() == refreshed_by(first, all, helds.deep_view(), n as int),
            sent.deep_view() == dictionary_news(first, all, n as int),
        decreases files@.len() - n,
    {
        let ghost kept = helds.deep_view();
        proof {
            lemma_refreshed_by(first, all, kept, n as int);
        }
        assert(all[n as int] == files@[n as int].deep_view());
        let file = &files[n];
        let ghost front = sent.deep_view();
        let is_dictionary = workspace.is_dictionary_path(file.path.as_str());
        let held = match &file.uri {
            Some(uri) => workspace.snapshot().held_uri(uri.as_str(), workspace.platform()),
            None => String::new(),
        };
        match workspace.refresh_held(file, held.as_str()) {
            Some(issue) => {
                let news = Outgoing::Issue(WorkspaceIssue::from_dictionary_issue(&issue));
                sent.push(news);
                assert(sent.deep_view() =~= front.push(news.deep_view()));
            },
            None => {
                if is_dictionary {
                    let news = Outgoing::Issue(
                        WorkspaceIssue::clear_dictionary(file.path.as_str()),
                    );
                    sent.push(news);
                    assert(sent.deep_view() =~= front.push(news.deep_view()));
                }
            },
        }
        helds.push(held);
        assert(helds.deep_view() =~= kept.push(held@));
        proof {
            lemma_refreshed_front(first, all, kept, helds.deep_view(), n as int);
        }
        n += 1;
    }
    (sent, helds)
}

/// Takes back what is shown in the files of workspaces.
fn clear_all(workspaces: &[WorkspaceIndex], cache: &mut DiagnosticCache) -> (sent: Vec<Outgoing>)
    ensures
        clears(
            workspaces.deep_view(),
            workspaces@.len() as int,
            old(cache).deep_view(),
            sent.deep_view(),
            final(cache).deep_view(),
        ),
{
    let ghost first = cache.deep_view();
    let ghost all = workspaces.deep_view();
    let mut sent: Vec<Outgoing> = Vec::new();
    assert(sent.deep_view() =~= Seq::<protocol::OutgoingView>::empty());
    let mut n: usize = 0;
    while n < workspaces.len()
        invariant
            n <= workspaces@.len(),
            all == workspaces.deep_view(),
            clears(all, n as int, first, sent.deep_view(), cache.deep_view()),
        decreases workspaces@.len() - n,
    {
        assert(all[n as int] == workspaces@[n as int].deep_view());
        let ghost front = sent.deep_view();
        let ghost known = cache.deep_view();
        let uris = diagnostics::clear_diagnostics(&workspaces[n], cache);
        assert(uris.deep_view().len() == uris@.len());
        let mut more = empty_files(&uris);
        let ghost back = more.deep_view();
        sent.append(&mut more);
        assert(sent.deep_view() =~= front + back);
        assert(clears_one(all[n + 1 - 1], front, known, sent.deep_view(), cache.deep_view()));
        n += 1;
    }
    sent
}

/// What is sent for files that nothing is shown in any more.
fn empty_files(uris: &[String]) -> (sent: Vec<Outgoing>)
    ensures
        sent.deep_view() == emptied(uris.deep_view(), uris@.len() as int),
{
    let ghost all = uris.deep_view();
    let mut sent: Vec<Outgoing> = Vec::new();
    assert(sent.deep_view() =~= Seq::<protocol::OutgoingView>::empty());
    let mut n: usize = 0;
    while n < uris.len()
        invariant
            n <= uris@.len(),
            all == uris.deep_view(),
            sent.deep_view() == emptied(all, n as int),
        decreases uris@.len() - n,
    {
        assert(all[n as int] == uris@[n as int]@);
        let ghost before = sent.deep_view();
        let file = FileDiagnostics { uri: uris[n].clone(), diagnostics: Vec::new() };
        assert(file.diagnostics.deep_view() =~= Seq::<diagnostics::DiagnosticView>::empty());
        let shown = Outgoing::Diagnostics(file);
        sent.push(shown);
        assert(sent.deep_view() =~= before.push(shown.deep_view()));
        n += 1;
    }
    sent
}

/// The workspaces with a root, and the others.
fn split_root(workspaces: Vec<WorkspaceIndex>, root: &str, platform: Platform) -> (parts: (
    Vec<WorkspaceIndex>,
    Vec<WorkspaceIndex>,
))
    ensures
        parts.0.deep_view() == sort::kept(workspaces.deep_view(), with_root(root@, platform)),
        parts.1.deep_view() == sort::kept(workspaces.deep_view(), without_root(root@, platform)),
{
    let ghost all = workspaces.deep_view();
    let count: usize = workspaces.len();
    let mut rest = workspaces;
    let mut gone: Vec<WorkspaceIndex> = Vec::new();
    let mut stay: Vec<WorkspaceIndex> = Vec::new();
    assert(gone.deep_view() =~= Seq::<workspace::WorkspaceView>::empty());
    assert(stay.deep_view() =~= Seq::<workspace::WorkspaceView>::empty());
    assert(all.take(0) =~= Seq::<workspace::WorkspaceView>::empty());
    assert(all.skip(0) =~= all);
    let mut n: usize = 0;
    while n < count
        invariant
            n <= count,
            count == all.len(),
            rest.deep_view() == all.skip(n as int),
            gone.deep_view() == sort::kept(all.take(n as int), with_root(root@, platform)),
            stay.deep_view() == sort::kept(all.take(n as int), without_root(root@, platform)),
        decreases count - n,
    {
        assert(rest.deep_view().len() == rest@.len());
        let ghost left = rest.deep_view();
        let workspace = rest.remove(0);
        assert(left[0] == workspace.deep_view());
        assert(rest.deep_view() =~= left.skip(1));
        assert(left.skip(1) =~= all.skip(n + 1));
        assert(all.take(n + 1) =~= all.take(n as int).push(all[n as int]));
        proof {
            sort::lemma_kept_push(all.take(n as int), all[n as int], with_root(root@, platform));
            sort::lemma_kept_push(all.take(n as int), all[n as int], without_root(root@, platform));
        }
        let ghost before_gone = gone.deep_view();
        let ghost before_stay = stay.deep_view();
        if path::same_path(workspace.root(), root, platform) {
            gone.push(workspace);
            assert(gone.deep_view() =~= before_gone.push(all[n as int]));
        } else {
            stay.push(workspace);
            assert(stay.deep_view() =~= before_stay.push(all[n as int]));
        }
        n += 1;
    }
    assert(all.take(n as int) =~= all);
    (gone, stay)
}

/// The paths without one.
fn other_paths(paths: &[String], root: &str, platform: Platform) -> (rest: Vec<String>)
    ensures
        rest.deep_view() == sort::kept(paths.deep_view(), other_than(root@, platform)),
{
    let ghost all = paths.deep_view();
    let mut rest: Vec<String> = Vec::new();
    assert(rest.deep_view() =~= Seq::<Seq<char>>::empty());
    assert(all.take(0) =~= Seq::<Seq<char>>::empty());
    let mut n: usize = 0;
    while n < paths.len()
        invariant
            n <= paths@.len(),
            all == paths.deep_view(),
            rest.deep_view() == sort::kept(all.take(n as int), other_than(root@, platform)),
        decreases paths@.len() - n,
    {
        assert(all[n as int] == paths@[n as int]@);
        assert(all.take(n + 1) =~= all.take(n as int).push(all[n as int]));
        proof {
            sort::lemma_kept_push(all.take(n as int), all[n as int], other_than(root@, platform));
        }
        if !path::same_path(paths[n].as_str(), root, platform) {
            let ghost before = rest.deep_view();
            rest.push(paths[n].clone());
            assert(rest.deep_view() =~= before.push(all[n as int]));
        }
        n += 1;
    }
    assert(all.take(n as int) =~= all);
    rest
}

impl Server {
    /// Takes a root away.
    pub fn drop_root(&mut self, root: Option<&str>) -> (sent: Vec<Outgoing>)
        ensures
            drops(
                old(self).deep_view(),
                root.deep_view(),
                sent.deep_view(),
                final(self).deep_view(),
            ),
    {
        match root {
            None => {
                let sent: Vec<Outgoing> = Vec::new();
                assert(sent.deep_view() =~= Seq::<protocol::OutgoingView>::empty());
                sent
            },
            Some(root) => {
                let ghost before = self.deep_view();
                let platform = self.platform;
                proof {
                    use_type_invariant(&*self);
                    sort::lemma_kept_ordered::<WorkspaceIndex>(
                        before.workspaces,
                        without_root(root@, platform),
                    );
                }
                let (gone, stay) = split_root(self.take_workspaces(), root, platform);
                let mut published = self.take_published();
                assert(gone.deep_view().len() == gone@.len());
                let sent = clear_all(&gone, &mut published);
                self.put_published(published);
                self.put_workspaces(stay);
                let roots = other_paths(&self.roots, root, platform);
                self.put_roots(roots);
                sent
            },
        }
    }

    fn put_roots(&mut self, roots: Vec<String>)
        ensures
            final(self).deep_view() == (ServerView {
                roots: roots.deep_view(),
                ..old(self).deep_view()
            }),
    {
        proof {
            use_type_invariant(&*self);
        }
        self.roots = roots;
    }

    /// Takes roots away, one after the other.
    pub fn drop_roots(&mut self, roots: &[Option<String>]) -> (sent: Vec<Outgoing>)
        ensures
            drops_all(
                old(self).deep_view(),
                roots.deep_view(),
                roots@.len() as int,
                sent.deep_view(),
                final(self).deep_view(),
            ),
    {
        let ghost before = self.deep_view();
        let ghost all = roots.deep_view();
        let mut sent: Vec<Outgoing> = Vec::new();
        assert(sent.deep_view() =~= Seq::<protocol::OutgoingView>::empty());
        let mut n: usize = 0;
        while n < roots.len()
            invariant
                n <= roots@.len(),
                all == roots.deep_view(),
                drops_all(before, all, n as int, sent.deep_view(), self.deep_view()),
            decreases roots@.len() - n,
        {
            assert(all[n as int] == roots@[n as int].deep_view());
            let ghost front = sent.deep_view();
            let ghost between = self.deep_view();
            let mut more = self.drop_root(text::borrowed(&roots[n]));
            let ghost back = more.deep_view();
            sent.append(&mut more);
            assert(sent.deep_view() =~= front + back);
            assert(sent.deep_view().skip(front.len() as int) =~= back);
            assert(drops_next(
                between,
                all[n + 1 - 1],
                front,
                sent.deep_view(),
                self.deep_view(),
            ));
            n += 1;
        }
        sent
    }

    /// Takes all workspaces away, so that they can be loaded again.
    pub fn drop_workspaces(&mut self) -> (sent: Vec<Outgoing>)
        ensures
            empties(old(self).deep_view(), sent.deep_view(), final(self).deep_view()),
    {
        let workspaces = self.take_workspaces();
        assert(workspaces.deep_view().len() == workspaces@.len());
        let mut published = self.take_published();
        let sent = clear_all(&workspaces, &mut published);
        self.put_published(published);
        sent
    }

    /// The URIs of the roots, as far as they have one.
    fn root_uris(&self) -> (uris: Vec<String>)
        ensures
            are_root_uris(self.deep_view().roots, uris.deep_view()),
    {
        let ghost all = self.roots.deep_view();
        let ghost mut found: Seq<Option<Seq<char>>> = Seq::empty();
        let mut uris: Vec<String> = Vec::new();
        assert(uris.deep_view() =~= given(found, 0));
        assert(all.len() == self.roots@.len());
        let mut n: usize = 0;
        while n < self.roots.len()
            invariant
                n <= self.roots@.len(),
                all == self.roots.deep_view(),
                found.len() == n,
                forall|i: int| 0 <= i < n ==> urls::is_uri(all[i], #[trigger] found[i]),
                uris.deep_view() == given(found, n as int),
            decreases self.roots@.len() - n,
        {
            assert(all[n as int] == self.roots@[n as int]@);
            let uri = urls::find_uri(self.roots[n].as_str());
            let ghost before = uris.deep_view();
            let ghost next = found.push(uri.deep_view());
            proof {
                lemma_given_front(found, next, n as int);
                found = next;
            }
            if let Some(uri) = uri {
                uris.push(uri);
                assert(uris.deep_view() =~= before.push(uri@));
            }
            n += 1;
        }
        assert(are_found(all, found));
        uris
    }
}

proof fn lemma_given_front(
    values: Seq<Option<Seq<char>>>,
    more: Seq<Option<Seq<char>>>,
    n: int,
)
    requires
        n <= values.len() <= more.len(),
        forall|i: int| 0 <= i < n ==> values[i] == #[trigger] more[i],
    ensures
        given(values, n) == given(more, n),
    decreases n,
{
    if n > 0 {
        lemma_given_front(values, more, n - 1);
    }
}

/// A workspace that is to be loaded.
#[derive(Debug)]
pub struct WorkspacePlan {
    pub root: String,
    pub config_path: String,
}

/// What a `WorkspacePlan` holds.
pub struct PlanView {
    pub root: Seq<char>,
    pub config_path: Seq<char>,
}

impl DeepView for WorkspacePlan {
    type V = PlanView;

    open spec fn deep_view(&self) -> PlanView {
        PlanView { root: self.root@, config_path: self.config_path@ }
    }
}

/// What is to be loaded for a root, where there is one and its workspace is not there already.
pub open spec fn planned(server: ServerView, root: Option<Seq<char>>) -> Option<PlanView> {
    match root {
        Some(root) => if has_root(server.workspaces, root, server.platform) {
            None
        } else {
            Some(PlanView { root, config_path: server.config_path_for(root) })
        },
        None => None,
    }
}

/// Whether the files of a workspace are watched.
#[derive(Debug)]
pub enum Watching {
    Registered,
    Failed,
    Unavailable(String),
}

/// What a `Watching` holds.
pub enum WatchingView {
    Registered,
    Failed,
    Unavailable(Seq<char>),
}

impl DeepView for Watching {
    type V = WatchingView;

    open spec fn deep_view(&self) -> WatchingView {
        match self {
            Watching::Registered => WatchingView::Registered,
            Watching::Failed => WatchingView::Failed,
            Watching::Unavailable(message) => WatchingView::Unavailable(message@),
        }
    }
}

/// That the files of a workspace are not watched.
pub open spec fn not_watched(root: Seq<char>) -> protocol::OutgoingView {
    protocol::OutgoingView::Issue(
        issue::WorkspaceIssueView {
            version: 1,
            active: true,
            code: "watcher_failed"@,
            summary: "LocaleBreeze cannot watch workspace files"@,
            remediation:
                "Automatic refresh is unavailable. Check file permissions, then restart the language server from LocaleBreeze settings."@,
            path: Some(names::shown(root)),
            line: None,
            column: None,
        },
    )
}

/// What is sent where the files of a workspace are not watched.
pub open spec fn watching_news(watching: WatchingView, root: Seq<char>) -> Seq<
    protocol::OutgoingView,
> {
    match watching {
        WatchingView::Registered => Seq::empty(),
        WatchingView::Failed => seq![not_watched(root)],
        WatchingView::Unavailable(message) => seq![
            protocol::OutgoingView::Log(
                LogLevel::Warning,
                "LocaleBreeze could not watch "@ + names::shown(root) + ": "@ + message,
            ),
            not_watched(root),
        ],
    }
}

/// What is sent first of a workspace that was loaded: its configuration is right again.
pub open spec fn welcome(
    published: Seq<diagnostics::KnownView>,
    root: Seq<char>,
    config_uri: Option<Seq<char>>,
    watching: WatchingView,
    process: u32,
) -> Seq<protocol::OutgoingView> {
    let cleared = match config_uri {
        Some(uri) => if diagnostics::known(published, uri) is Some {
            seq![
                protocol::OutgoingView::Diagnostics(
                    diagnostics::FileDiagnosticsView { uri, diagnostics: Seq::empty() },
                ),
            ]
        } else {
            Seq::empty()
        },
        None => Seq::empty(),
    };
    seq![protocol::OutgoingView::Issue(issue::cleared("clear"@, None))] + cleared + watching_news(
        watching,
        root,
    ) + seq![
        protocol::OutgoingView::Log(
            LogLevel::Info,
            "LocaleBreeze server pid="@ + chars::decimal(process as nat, 0) + " indexed "@
                + names::shown(root),
        ),
    ]
}

/// What an editor knows after the configuration of a workspace is right again.
pub open spec fn welcomed(
    published: Seq<diagnostics::KnownView>,
    config_uri: Option<Seq<char>>,
) -> Seq<diagnostics::KnownView> {
    match config_uri {
        Some(uri) => diagnostics::forgotten(published, uri),
        None => published,
    }
}

/// Whether `sent` and `after` are what comes of a workspace that was loaded: it takes its place
/// among the others, and the workspace that its root belongs to is told of.
pub open spec fn joins(
    before: ServerView,
    loaded: workspace::WorkspaceView,
    root: Seq<char>,
    config_uri: Option<Seq<char>>,
    watching: WatchingView,
    process: u32,
    sent: Seq<protocol::OutgoingView>,
    after: ServerView,
) -> bool {
    let workspaces = sort::sorted::<WorkspaceIndex>(before.workspaces.push(loaded));
    let front = welcome(before.published, root, config_uri, watching, process);
    let known = welcomed(before.published, config_uri);
    &&& after == (ServerView { workspaces, published: after.published, ..before })
    &&& front.is_prefix_of(sent)
    &&& match place_from(workspaces, root, 0) {
        None => sent == front && after.published == known,
        Some(i) => protocol::reports(
            workspaces[i],
            before.config_path_for(root),
            process,
            known,
            sent.skip(front.len() as int),
            after.published,
        ),
    }
}

/// What is sent of a workspace that cannot be loaded.
pub open spec fn refusal(
    published: Seq<diagnostics::KnownView>,
    error: config::ConfigErrorView,
    root: Seq<char>,
    config_path: Seq<char>,
    config_uri: Option<Seq<char>>,
) -> Seq<protocol::OutgoingView> {
    let shown = seq![diagnostics::config_diagnostic(error, config_path)];
    let told = match config_uri {
        Some(uri) => if diagnostics::known(published, uri) == Some(shown) {
            Seq::empty()
        } else {
            seq![
                protocol::OutgoingView::Diagnostics(
                    diagnostics::FileDiagnosticsView { uri, diagnostics: shown },
                ),
            ]
        },
        None => Seq::empty(),
    };
    told + seq![
        protocol::OutgoingView::Issue(issue::config_issue(error, config_path)),
        protocol::OutgoingView::Log(
            LogLevel::Error,
            "LocaleBreeze disabled for "@ + names::shown(root) + ": "@ + config::error_text(
                error,
            ),
        ),
    ]
}

/// What an editor knows after a workspace could not be loaded.
pub open spec fn refused(
    published: Seq<diagnostics::KnownView>,
    error: config::ConfigErrorView,
    config_path: Seq<char>,
    config_uri: Option<Seq<char>>,
) -> Seq<diagnostics::KnownView> {
    let shown = seq![diagnostics::config_diagnostic(error, config_path)];
    match config_uri {
        Some(uri) => if diagnostics::known(published, uri) == Some(shown) {
            published
        } else {
            diagnostics::told(
                published,
                diagnostics::FileDiagnosticsView { uri, diagnostics: shown },
                Some(config_path),
            )
        },
        None => published,
    }
}

/// Whether `sent` and `after` are what comes of a workspace that was to be loaded.
pub open spec fn settles(
    before: ServerView,
    loaded: Result<WorkspaceIndex, ConfigError>,
    root: Seq<char>,
    config_uri: Option<Seq<char>>,
    watching: WatchingView,
    process: u32,
    sent: Seq<protocol::OutgoingView>,
    after: ServerView,
) -> bool {
    match loaded {
        Ok(loaded) => joins(
            before,
            loaded.deep_view(),
            root,
            config_uri,
            watching,
            process,
            sent,
            after,
        ),
        Err(error) => {
            let config_path = before.config_path_for(root);
            &&& sent == refusal(
                before.published,
                error.deep_view(),
                root,
                config_path,
                config_uri,
            )
            &&& after == (ServerView {
                published: refused(
                    before.published,
                    error.deep_view(),
                    config_path,
                    config_uri,
                ),
                ..before
            })
        },
    }
}

/// What is sent where the files of a workspace are not watched.
fn tell_watching(watching: &Watching, root: &str) -> (sent: Vec<Outgoing>)
    ensures
        sent.deep_view() == watching_news(watching.deep_view(), root@),
{
    let mut sent: Vec<Outgoing> = Vec::new();
    assert(sent.deep_view() =~= Seq::<protocol::OutgoingView>::empty());
    match watching {
        Watching::Registered => {},
        Watching::Failed => {
            sent.push(Outgoing::Issue(WorkspaceIssue::watcher_failed(root)));
            assert(sent.deep_view() =~= watching_news(watching.deep_view(), root@));
        },
        Watching::Unavailable(message) => {
            let mut line = "LocaleBreeze could not watch ".to_owned();
            line.append(names::show(root).as_str());
            line.append(": ");
            line.append(message.as_str());
            sent.push(Outgoing::Log(LogLevel::Warning, line));
            sent.push(Outgoing::Issue(WorkspaceIssue::watcher_failed(root)));
            assert(sent.deep_view() =~= watching_news(watching.deep_view(), root@));
        },
    }
    sent
}

/// What is sent first of a workspace that was loaded.
fn tell_welcome(
    root: &str,
    config_uri: &Option<String>,
    watching: &Watching,
    process: u32,
    cache: &mut DiagnosticCache,
) -> (sent: Vec<Outgoing>)
    ensures
        sent.deep_view() == welcome(
            old(cache).deep_view(),
            root@,
            config_uri.deep_view(),
            watching.deep_view(),
            process,
        ),
        final(cache).deep_view() == welcomed(old(cache).deep_view(), config_uri.deep_view()),
{
    let ghost known = cache.deep_view();
    let mut sent: Vec<Outgoing> = Vec::new();
    let first = Outgoing::Issue(WorkspaceIssue::clear());
    sent.push(first);
    assert(sent.deep_view() =~= seq![first.deep_view()]);
    let ghost one = sent.deep_view();
    if let Some(uri) = config_uri {
        if let Some(file) = diagnostics::clear_uri_diagnostic(uri.as_str(), cache) {
            let shown = Outgoing::Diagnostics(file);
            sent.push(shown);
            assert(sent.deep_view() =~= one + seq![shown.deep_view()]);
        } else {
            assert(one + Seq::<protocol::OutgoingView>::empty() =~= one);
        }
    } else {
        assert(one + Seq::<protocol::OutgoingView>::empty() =~= one);
    }
    let ghost two = sent.deep_view();
    let mut more = tell_watching(watching, root);
    let ghost news = more.deep_view();
    sent.append(&mut more);
    assert(sent.deep_view() =~= two + news);
    let ghost three = sent.deep_view();
    let mut line = "LocaleBreeze server pid=".to_owned();
    line.append(chars::decimal_text(process as u64, 0).as_str());
    line.append(" indexed ");
    line.append(names::show(root).as_str());
    let last = Outgoing::Log(LogLevel::Info, line);
    sent.push(last);
    assert(sent.deep_view() =~= three + seq![last.deep_view()]);
    sent
}

/// What is sent of a workspace that cannot be loaded.
fn tell_refusal(
    error: &ConfigError,
    root: &str,
    config_path: &str,
    config_uri: &Option<String>,
    cache: &mut DiagnosticCache,
) -> (sent: Vec<Outgoing>)
    ensures
        sent.deep_view() == refusal(
            old(cache).deep_view(),
            error.deep_view(),
            root@,
            config_path@,
            config_uri.deep_view(),
        ),
        final(cache).deep_view() == refused(
            old(cache).deep_view(),
            error.deep_view(),
            config_path@,
            config_uri.deep_view(),
        ),
{
    let mut sent: Vec<Outgoing> = Vec::new();
    assert(sent.deep_view() =~= Seq::<protocol::OutgoingView>::empty());
    if let Some(uri) = config_uri {
        if let Some(file) = diagnostics::publish_config_diagnostic(
            uri.as_str(),
            config_path,
            error,
            cache,
        ) {
            let shown = Outgoing::Diagnostics(file);
            sent.push(shown);
            assert(sent.deep_view() =~= seq![shown.deep_view()]);
        }
    }
    let ghost told = sent.deep_view();
    let problem = Outgoing::Issue(WorkspaceIssue::from_config_error(error, config_path));
    let mut line = "LocaleBreeze disabled for ".to_owned();
    line.append(names::show(root).as_str());
    line.append(": ");
    line.append(error.message().as_str());
    let last = Outgoing::Log(LogLevel::Error, line);
    sent.push(problem);
    sent.push(last);
    assert(sent.deep_view() =~= told + seq![problem.deep_view(), last.deep_view()]);
    sent
}

impl Server {
    /// Notes a root, and says which configuration file is to be read for it; none where its
    /// workspace is there already.
    pub fn plan_root(&mut self, root: &str) -> (config_path: Option<String>)
        ensures
            final(self).deep_view() == old(self).deep_view().noting(root@),
            config_path.deep_view() == if has_root(
                old(self).deep_view().workspaces,
                root@,
                old(self).deep_view().platform,
            ) {
                None
            } else {
                Some(old(self).deep_view().config_path_for(root@))
            },
    {
        let ghost before = self.roots.deep_view();
        if !self.knows_root(root) {
            let mut roots = text::copies(&self.roots);
            roots.push(root.to_owned());
            assert(roots.deep_view() =~= before.push(root@));
            self.put_roots(roots);
        }
        proof {
            lemma_root(self.deep_view().workspaces, root@, self.platform, 0);
        }
        if self.find_root(root).is_some() {
            None
        } else {
            Some(self.config_path_for(root))
        }
    }

    /// Notes the root that a URI stands for, and says what is to be loaded; nothing where the URI
    /// stands for none or the workspace is there already.
    pub fn plan_workspace(&mut self, uri: &str) -> (plan: Option<WorkspacePlan>)
        ensures
            exists|root: Option<Seq<char>>|
                urls::is_path(uri@, root) && plan.deep_view() == #[trigger] planned(
                    old(self).deep_view(),
                    root,
                ) && final(self).deep_view() == match root {
                    Some(root) => old(self).deep_view().noting(root),
                    None => old(self).deep_view(),
                },
    {
        let path = urls::find_path(uri);
        let ghost before = self.deep_view();
        assert(planned(before, None) is None);
        match path {
            Some(root) => {
                let plan = match self.plan_root(root.as_str()) {
                    Some(config_path) => Some(WorkspacePlan { root, config_path }),
                    None => None,
                };
                assert(plan.deep_view() == planned(before, Some(root@)));
                plan
            },
            None => None,
        }
    }

    /// Whether a root was noted.
    fn knows_root(&self, root: &str) -> (found: bool)
        ensures
            found == has_path(self.deep_view().roots, root@, self.deep_view().platform),
    {
        let ghost all = self.roots.deep_view();
        let mut n: usize = 0;
        while n < self.roots.len()
            invariant
                n <= self.roots@.len(),
                all == self.roots.deep_view(),
                all == self.deep_view().roots,
                forall|i: int|
                    0 <= i < n ==> !path::is_equal(#[trigger] all[i], root@, self.platform),
            decreases self.roots@.len() - n,
        {
            assert(all[n as int] == self.roots@[n as int]@);
            if path::equal_paths(self.roots[n].as_str(), root, self.platform) {
                return true;
            }
            n += 1;
        }
        false
    }

    /// Takes in a workspace that was to be loaded, given the URI of its configuration file.
    pub fn settle_workspace(
        &mut self,
        loaded: Result<WorkspaceIndex, ConfigError>,
        root: &str,
        config_uri: &Option<String>,
        watching: &Watching,
        process: u32,
    ) -> (sent: Vec<Outgoing>)
        ensures
            settles(
                old(self).deep_view(),
                loaded,
                root@,
                config_uri.deep_view(),
                watching.deep_view(),
                process,
                sent.deep_view(),
                final(self).deep_view(),
            ),
    {
        let ghost before = self.deep_view();
        let config_path = self.config_path_for(root);
        let mut published = self.take_published();
        match loaded {
            Err(error) => {
                let sent = tell_refusal(
                    &error,
                    root,
                    config_path.as_str(),
                    config_uri,
                    &mut published,
                );
                self.put_published(published);
                sent
            },
            Ok(workspace) => {
                let mut sent = tell_welcome(root, config_uri, watching, process, &mut published);
                self.put_published(published);
                let ghost front = sent.deep_view();
                let mut workspaces = self.take_workspaces();
                let ghost view = workspace.deep_view();
                workspaces.push(workspace);
                assert(workspaces.deep_view() =~= before.workspaces.push(view));
                let sorted = sort::sort(workspaces);
                proof {
                    sort::sorting_orders::<WorkspaceIndex>(before.workspaces.push(view));
                }
                self.put_workspaces(sorted);
                assert(self.deep_view().workspaces.len() == self.workspaces@.len());
                if let Some(i) = self.find_place(root) {
                    let mut more = self.tell_of(i, config_path.as_str(), process);
                    let ghost back = more.deep_view();
                    sent.append(&mut more);
                    assert(sent.deep_view() =~= front + back);
                    assert(sent.deep_view().skip(front.len() as int) =~= back);
                }
                assert(front.is_prefix_of(sent.deep_view()));
                sent
            },
        }
    }

    /// Takes in a workspace that was to be loaded.
    pub fn add_workspace(
        &mut self,
        loaded: Result<WorkspaceIndex, ConfigError>,
        root: &str,
        watching: &Watching,
        process: u32,
    ) -> (sent: Vec<Outgoing>)
        ensures
            exists|config_uri: Option<Seq<char>>|
                urls::is_uri(old(self).deep_view().config_path_for(root@), config_uri)
                    && #[trigger] settles(
                    old(self).deep_view(),
                    loaded,
                    root@,
                    config_uri,
                    watching.deep_view(),
                    process,
                    sent.deep_view(),
                    final(self).deep_view(),
                ),
    {
        let config_path = self.config_path_for(root);
        let config_uri = urls::find_uri(config_path.as_str());
        self.settle_workspace(loaded, root, &config_uri, watching, process)
    }
}

proof fn lemma_root(
    workspaces: Seq<workspace::WorkspaceView>,
    root: Seq<char>,
    platform: Platform,
    from: int,
)
    requires
        0 <= from,
    ensures
        match root_from(workspaces, root, platform, from) {
            Some(i) => from <= i < workspaces.len() && path::is_same(
                workspaces[i].root,
                root,
                platform,
            ),
            None => forall|j: int|
                from <= j < workspaces.len() ==> !path::is_same(
                    (#[trigger] workspaces[j]).root,
                    root,
                    platform,
                ),
        },
    decreases workspaces.len() - from,
{
    if from < workspaces.len() && !path::is_same(workspaces[from].root, root, platform) {
        lemma_root(workspaces, root, platform, from + 1);
    }
}

/// What an editor asks of a document.
#[derive(Debug)]
pub enum Query {
    Completion { position: Position },
    Definition { position: Position },
    Hover { position: Position },
    References { position: Position, include_declaration: bool },
    ResolveKey { position: Position },
    DocumentKeys,
    PrepareAddKey { position: Position, value: String, version: Option<i32> },
}

/// What a `Query` holds.
pub enum QueryView {
    Completion { position: Position },
    Definition { position: Position },
    Hover { position: Position },
    References { position: Position, include_declaration: bool },
    ResolveKey { position: Position },
    DocumentKeys,
    PrepareAddKey { position: Position, value: Seq<char>, version: Option<i32> },
}

impl DeepView for Query {
    type V = QueryView;

    open spec fn deep_view(&self) -> QueryView {
        match self {
            Query::Completion { position } => QueryView::Completion { position: *position },
            Query::Definition { position } => QueryView::Definition { position: *position },
            Query::Hover { position } => QueryView::Hover { position: *position },
            Query::References { position, include_declaration } => QueryView::References {
                position: *position,
                include_declaration: *include_declaration,
            },
            Query::ResolveKey { position } => QueryView::ResolveKey { position: *position },
            Query::DocumentKeys => QueryView::DocumentKeys,
            Query::PrepareAddKey { position, value, version } => QueryView::PrepareAddKey {
                position: *position,
                value: value@,
                version: *version,
            },
        }
    }
}

/// What an editor is answered.
#[derive(Debug)]
pub enum Reply {
    Nothing,
    Completions(CompletionList),
    Places(Vec<Location>),
    Hover(String),
    Key(String),
    Keys(DocumentKeysResult),
    Edit(PreparedEdit),
}

/// What a `Reply` holds.
pub enum ReplyView {
    Nothing,
    Completions(commands::ListView),
    Places(Seq<position::LocationView>),
    Hover(Seq<char>),
    Key(Seq<char>),
    Keys(commands::KeysView),
    Edit(edit::EditView),
}

impl DeepView for Reply {
    type V = ReplyView;

    open spec fn deep_view(&self) -> ReplyView {
        match self {
            Reply::Nothing => ReplyView::Nothing,
            Reply::Completions(list) => ReplyView::Completions(list.deep_view()),
            Reply::Places(places) => ReplyView::Places(places.deep_view()),
            Reply::Hover(text) => ReplyView::Hover(text@),
            Reply::Key(text) => ReplyView::Key(text@),
            Reply::Keys(keys) => ReplyView::Keys(keys.deep_view()),
            Reply::Edit(edit) => ReplyView::Edit(edit.deep_view()),
        }
    }
}

/// What a workspace answers.
pub open spec fn workspace_reply(
    workspace: workspace::WorkspaceView,
    uri: Seq<char>,
    query: QueryView,
) -> ReplyView {
    match query {
        QueryView::Completion { position } => match commands::completions_at(
            workspace,
            uri,
            position,
        ) {
            Some(list) => ReplyView::Completions(list),
            None => ReplyView::Nothing,
        },
        QueryView::Definition { position } => match navigation::definition_at(
            workspace,
            uri,
            position,
        ) {
            Some(places) => ReplyView::Places(places),
            None => ReplyView::Nothing,
        },
        QueryView::Hover { position } => match navigation::hover_at(workspace, uri, position) {
            Some(text) => ReplyView::Hover(text),
            None => ReplyView::Nothing,
        },
        QueryView::References { position, include_declaration } => match navigation::references_at(
            workspace,
            uri,
            position,
            include_declaration,
        ) {
            Some(places) => ReplyView::Places(places),
            None => ReplyView::Nothing,
        },
        QueryView::ResolveKey { position } => match navigation::key_at(
            workspace.snapshot,
            uri,
            position,
            workspace.config.key_separator,
        ) {
            Some(key) => ReplyView::Key(key::qualified_text(key)),
            None => ReplyView::Nothing,
        },
        QueryView::DocumentKeys => ReplyView::Keys(commands::keys_in(workspace, uri)),
        QueryView::PrepareAddKey { position, value, version } => match commands::addition_at(
            workspace,
            uri,
            position,
            value,
            version,
        ) {
            Some(edit) => ReplyView::Edit(edit),
            None => ReplyView::Nothing,
        },
    }
}

/// What the server answers of a document, whose path is known.
pub open spec fn reply_to(
    server: ServerView,
    uri: Seq<char>,
    path: Option<Seq<char>>,
    query: QueryView,
) -> ReplyView {
    match place_of(server.workspaces, path) {
        Some(i) => workspace_reply(server.workspaces[i], uri, query),
        None => ReplyView::Nothing,
    }
}

/// What a workspace answers.
pub fn answer_in(workspace: &WorkspaceIndex, uri: &str, query: &Query) -> (reply: Reply)
    ensures
        reply.deep_view() == workspace_reply(workspace.deep_view(), uri@, query.deep_view()),
{
    match query {
        Query::Completion { position } => match commands::complete(workspace, uri, *position) {
            Some(list) => Reply::Completions(list),
            None => Reply::Nothing,
        },
        Query::Definition { position } => match navigation::definition(workspace, uri, *position) {
            Some(places) => Reply::Places(places),
            None => Reply::Nothing,
        },
        Query::Hover { position } => match navigation::hover(workspace, uri, *position) {
            Some(text) => Reply::Hover(text),
            None => Reply::Nothing,
        },
        Query::References { position, include_declaration } => match navigation::references(
            workspace,
            uri,
            *position,
            *include_declaration,
        ) {
            Some(places) => Reply::Places(places),
            None => Reply::Nothing,
        },
        Query::ResolveKey { position } => match navigation::resolve_full_key(
            workspace,
            uri,
            *position,
        ) {
            Some(text) => Reply::Key(text),
            None => Reply::Nothing,
        },
        Query::DocumentKeys => Reply::Keys(commands::document_keys(workspace, uri)),
        Query::PrepareAddKey { position, value, version } => match commands::prepare_add_key(
            workspace,
            uri,
            *position,
            value.as_str(),
            *version,
        ) {
            Some(edit) => Reply::Edit(edit),
            None => Reply::Nothing,
        },
    }
}

/// What an editor lets the server know.
#[allow(inconsistent_fields)]
#[derive(Debug)]
pub enum Event {
    Opened { uri: String, text: String, version: i32 },
    Changed { uri: String, changes: Vec<TextChange>, version: i32 },
    /// With what is on disk, where the URI is that of a path.
    Closed { uri: String, file: Option<DiskFile> },
    Saved { uri: String, text: Option<String> },
    FoldersChanged { removed: Vec<String>, added: Vec<String> },
    ConfigurationChanged,
    FilesChanged { uris: Vec<String> },
}

/// What the server does next: what it sends, which workspaces are to be loaded, by the URIs of
/// their roots, and whether those that were there are to be forgotten.
#[derive(Debug)]
pub struct Reaction {
    pub sent: Vec<Outgoing>,
    pub load: Vec<String>,
    pub reload: bool,
}

/// Whether the server does nothing but send.
pub open spec fn only_sends(reaction: Reaction) -> bool {
    reaction.load.deep_view() == Seq::<Seq<char>>::empty() && !reaction.reload
}

/// Whether a reaction and `after` are what comes of a text, for the path that its URI stands for.
pub open spec fn takes_text(
    before: ServerView,
    uri: Seq<char>,
    text: Seq<char>,
    version: Option<i32>,
    process: u32,
    reaction: Reaction,
    after: ServerView,
) -> bool {
    &&& only_sends(reaction)
    &&& exists|
        held: Seq<char>,
        path: Option<Seq<char>>,
        kept: Option<Seq<char>>,
        kept_uri: Option<Seq<char>>,
    |
        urls::is_path(uri, path) && is_held(before.workspaces, path, uri, held) && urls::is_place(
            held,
            kept,
            kept_uri,
        ) && #[trigger] before.updates(
            held,
            path,
            kept,
            kept_uri,
            text,
            version,
            process,
            reaction.sent.deep_view(),
            after,
        )
}

/// Whether `sent` and `after` are what comes of taking the roots away that URIs stand for, where
/// `paths` are the paths of those.
pub open spec fn leaves(
    before: ServerView,
    removed: Seq<Seq<char>>,
    paths: Seq<Option<Seq<char>>>,
    sent: Seq<protocol::OutgoingView>,
    after: ServerView,
) -> bool {
    urls::are_paths(removed, paths) && drops_all(before, paths, paths.len() as int, sent, after)
}

/// The first `n` of the values, as far as they are given.
pub open spec fn given(values: Seq<Option<Seq<char>>>, n: int) -> Seq<Seq<char>>
    decreases n,
{
    if n <= 0 {
        Seq::empty()
    } else {
        match values[n - 1] {
            Some(value) => given(values, n - 1).push(value),
            None => given(values, n - 1),
        }
    }
}

/// Whether `found` are the URIs of the roots, or nothing where a root has none.
pub open spec fn are_found(roots: Seq<Seq<char>>, found: Seq<Option<Seq<char>>>) -> bool {
    &&& found.len() == roots.len()
    &&& forall|i: int| 0 <= i < found.len() ==> urls::is_uri(roots[i], #[trigger] found[i])
}

/// Whether `uris` are the URIs of those roots that have one, in their order.
pub open spec fn are_root_uris(roots: Seq<Seq<char>>, uris: Seq<Seq<char>>) -> bool {
    exists|found: Seq<Option<Seq<char>>>| #[trigger]
        are_found(roots, found) && uris == given(found, found.len() as int)
}

/// Whether a reaction and `after` are what comes of loading all workspaces again.
pub open spec fn reloads(before: ServerView, reaction: Reaction, after: ServerView) -> bool {
    &&& reaction.reload
    &&& are_root_uris(before.roots, reaction.load.deep_view())
    &&& empties(before, reaction.sent.deep_view(), after)
}

/// Whether a reaction and `after` are what comes of nothing.
pub open spec fn rests(before: ServerView, reaction: Reaction, after: ServerView) -> bool {
    &&& only_sends(reaction)
    &&& reaction.sent.deep_view() == Seq::<protocol::OutgoingView>::empty()
    &&& after == before
}

/// The path of a file on disk, where there is one.
pub open spec fn path_of_file(file: Option<workspace::DiskView>) -> Option<Seq<char>> {
    match file {
        Some(file) => Some(file.path),
        None => None,
    }
}

/// Whether a reaction and `after` are what comes of an event, for the paths that URIs stand for.
pub open spec fn reacts(
    before: ServerView,
    event: Event,
    process: u32,
    reaction: Reaction,
    after: ServerView,
) -> bool {
    match event {
        Event::Opened { uri, text, version } => takes_text(
            before,
            uri@,
            text@,
            Some(version),
            process,
            reaction,
            after,
        ),
        Event::Changed { uri, changes, version } => only_sends(reaction) && exists|
            held: Seq<char>,
            path: Option<Seq<char>>,
            kept: Option<Seq<char>>,
            kept_uri: Option<Seq<char>>,
        |
            urls::is_path(uri@, path) && is_held(before.workspaces, path, uri@, held)
                && urls::is_place(held, kept, kept_uri) && #[trigger] before.edits(
                held,
                path,
                kept,
                kept_uri,
                changes.deep_view(),
                version,
                process,
                reaction.sent.deep_view(),
                after,
            ),
        Event::Closed { uri, file } => only_sends(reaction) && exists|held: Seq<char>|
            is_held(before.workspaces, path_of_file(file.deep_view()), uri@, held)
                && #[trigger] before.closes(
                held,
                file.deep_view(),
                process,
                reaction.sent.deep_view(),
                after,
            ),
        Event::Saved { uri, text } => match text {
            Some(text) => takes_text(before, uri@, text@, None, process, reaction, after),
            None => rests(before, reaction, after),
        },
        Event::FoldersChanged { removed, added } => !reaction.reload && reaction.load.deep_view()
            == added.deep_view() && exists|paths: Seq<Option<Seq<char>>>|
            #[trigger] leaves(
                before,
                removed.deep_view(),
                paths,
                reaction.sent.deep_view(),
                after,
            ),
        Event::ConfigurationChanged => reloads(before, reaction, after),
        Event::FilesChanged { uris } => if concerns_config(uris.deep_view()) {
            reloads(before, reaction, after)
        } else {
            rests(before, reaction, after)
        },
    }
}

/// Whether one of the files is a configuration file.
pub fn is_config_change(uris: &[String]) -> (found: bool)
    ensures
        found == concerns_config(uris.deep_view()),
{
    let ghost all = uris.deep_view();
    let mut n: usize = 0;
    while n < uris.len()
        invariant
            n <= uris@.len(),
            all == uris.deep_view(),
            forall|i: int|
                0 <= i < n ==> urls::last_segment(#[trigger] all[i]) != Some(config_name()),
        decreases uris@.len() - n,
    {
        assert(all[n as int] == uris@[n as int]@);
        if let Some(name) = urls::last_segment_of(uris[n].as_str()) {
            if text::same(name.as_str(), "locale-breeze.json") {
                return true;
            }
        }
        n += 1;
    }
    false
}

/// The path that a URI stands for, and the URI of that.
fn locate(uri: &str) -> (place: (Option<String>, Option<String>))
    ensures
        urls::is_place(uri@, place.0.deep_view(), place.1.deep_view()),
{
    urls::find_place(uri)
}

/// A reaction that only sends.
fn send(sent: Vec<Outgoing>) -> (reaction: Reaction)
    ensures
        only_sends(reaction),
        reaction.sent == sent,
{
    let reaction = Reaction { sent, load: Vec::new(), reload: false };
    assert(reaction.load.deep_view() =~= Seq::<Seq<char>>::empty());
    reaction
}

impl Server {
    /// What the server answers of a document, whose path is known.
    pub fn answer_located(&self, uri: &str, path: Option<&str>, query: &Query) -> (reply: Reply)
        ensures
            reply.deep_view() == reply_to(
                self.deep_view(),
                uri@,
                path.deep_view(),
                query.deep_view(),
            ),
    {
        let found = match path {
            Some(path) => self.workspace_for_path(path),
            None => None,
        };
        match found {
            Some(workspace) => answer_in(workspace, uri, query),
            None => Reply::Nothing,
        }
    }

    /// What the server answers of a document.
    pub fn handle_request(&self, uri: &str, query: &Query) -> (reply: Reply)
        ensures
            exists|held: Seq<char>, path: Option<Seq<char>>|
                urls::is_path(uri@, path) && is_held(
                    self.deep_view().workspaces,
                    path,
                    uri@,
                    held,
                ) && reply.deep_view() == #[trigger] reply_to(
                    self.deep_view(),
                    held,
                    path,
                    query.deep_view(),
                ),
    {
        let path = urls::find_path(uri);
        let held = self.held_uri(uri, text::borrowed(&path));
        self.answer_located(held.as_str(), text::borrowed(&path), query)
    }

    /// Takes in the text that an editor holds, whatever version is there, for a file that it calls
    /// by `path`, where the path that it is kept under and the URI of that are known.
    pub fn refresh_located(
        &mut self,
        uri: &str,
        path: Option<&str>,
        kept: &Option<String>,
        kept_uri: &Option<String>,
        text: String,
    )
        requires
            old(self).deep_view().can_change(),
        ensures
            final(self).deep_view() == refreshed_text(
                old(self).deep_view(),
                uri@,
                path.deep_view(),
                kept.deep_view(),
                kept_uri.deep_view(),
                text@,
            ),
    {
        self.replace_text(uri, path, kept, kept_uri, text, None);
    }

    /// Takes in the text that an editor holds, whatever version is there.
    pub fn refresh_document(&mut self, uri: &str, text: String)
        requires
            old(self).deep_view().can_change(),
        ensures
            exists|
                held: Seq<char>,
                path: Option<Seq<char>>,
                kept: Option<Seq<char>>,
                kept_uri: Option<Seq<char>>,
            |
                urls::is_path(uri@, path) && is_held(
                    old(self).deep_view().workspaces,
                    path,
                    uri@,
                    held,
                ) && urls::is_place(held, kept, kept_uri) && final(self).deep_view()
                    == #[trigger] refreshed_text(
                    old(self).deep_view(),
                    held,
                    path,
                    kept,
                    kept_uri,
                    text@,
                ),
    {
        let path = urls::find_path(uri);
        let held = self.held_uri(uri, text::borrowed(&path));
        let (kept, kept_uri) = locate(held.as_str());
        self.refresh_located(held.as_str(), text::borrowed(&path), &kept, &kept_uri, text);
    }

    /// What the server does when an editor lets it know something.
    pub fn handle_notification(&mut self, event: Event, process: u32) -> (reaction: Reaction)
        requires
            old(self).deep_view().can_change(),
        ensures
            reacts(old(self).deep_view(), event, process, reaction, final(self).deep_view()),
    {
        match event {
            Event::Opened { uri, text, version } => self.take_text(
                uri.as_str(),
                text,
                Some(version),
                process,
            ),
            Event::Changed { uri, changes, version } => {
                let path = urls::find_path(uri.as_str());
                let held = self.held_uri(uri.as_str(), text::borrowed(&path));
                let (kept, kept_uri) = locate(held.as_str());
                let reaction = send(
                    self.change_located(
                        held.as_str(),
                        text::borrowed(&path),
                        &kept,
                        &kept_uri,
                        &changes,
                        version,
                        process,
                    ),
                );
                assert(old(self).deep_view().edits(
                    held@,
                    path.deep_view(),
                    kept.deep_view(),
                    kept_uri.deep_view(),
                    changes.deep_view(),
                    version,
                    process,
                    reaction.sent.deep_view(),
                    self.deep_view(),
                ));
                reaction
            },
            Event::Closed { uri, file } => {
                let path = match &file {
                    Some(file) => Some(file.path.as_str()),
                    None => None,
                };
                let held = self.held_uri(uri.as_str(), path);
                let reaction = send(self.close_document(held.as_str(), &file, process));
                assert(old(self).deep_view().closes(
                    held@,
                    file.deep_view(),
                    process,
                    reaction.sent.deep_view(),
                    self.deep_view(),
                ));
                reaction
            },
            Event::Saved { uri, text } => match text {
                Some(text) => self.take_text(uri.as_str(), text, None, process),
                None => self.rest(),
            },
            Event::FoldersChanged { removed, added } => {
                let paths = urls::find_paths(&removed);
                assert(paths.deep_view().len() == paths@.len());
                let sent = self.drop_roots(&paths);
                let reaction = Reaction { sent, load: added, reload: false };
                assert(leaves(
                    old(self).deep_view(),
                    event->removed.deep_view(),
                    paths.deep_view(),
                    reaction.sent.deep_view(),
                    self.deep_view(),
                ));
                reaction
            },
            Event::ConfigurationChanged => self.reload_workspaces(),
            Event::FilesChanged { uris } => {
                if is_config_change(&uris) {
                    self.reload_workspaces()
                } else {
                    self.rest()
                }
            },
        }
    }

    /// Takes in the text of a file.
    fn take_text(&mut self, uri: &str, text: String, version: Option<i32>, process: u32) -> (reaction:
        Reaction)
        requires
            old(self).deep_view().can_change(),
        ensures
            takes_text(
                old(self).deep_view(),
                uri@,
                text@,
                version,
                process,
                reaction,
                final(self).deep_view(),
            ),
    {
        let path = urls::find_path(uri);
        let held = self.held_uri(uri, text::borrowed(&path));
        let (kept, kept_uri) = locate(held.as_str());
        let sent = self.update_located(
            held.as_str(),
            text::borrowed(&path),
            &kept,
            &kept_uri,
            text,
            version,
            process,
        );
        send(sent)
    }

    /// What the server does next to load all workspaces again.
    pub fn reload_workspaces(&mut self) -> (reaction: Reaction)
        ensures
            reloads(old(self).deep_view(), reaction, final(self).deep_view()),
    {
        let load = self.root_uris();
        let sent = self.drop_workspaces();
        Reaction { sent, load, reload: true }
    }

    fn rest(&self) -> (reaction: Reaction)
        ensures
            rests(self.deep_view(), reaction, self.deep_view()),
    {
        let sent: Vec<Outgoing> = Vec::new();
        assert(sent.deep_view() =~= Seq::<protocol::OutgoingView>::empty());
        send(sent)
    }
}

/// The server after the text that an editor holds was taken in, for a file that it calls by `path`,
/// where the path that it is kept under and the URI of that are known.
pub open spec fn refreshed_text(
    server: ServerView,
    uri: Seq<char>,
    path: Option<Seq<char>>,
    kept: Option<Seq<char>>,
    kept_uri: Option<Seq<char>>,
    text: Seq<char>,
) -> ServerView {
    match place_of(server.workspaces, path) {
        None => server,
        Some(i) => ServerView {
            workspaces: server.workspaces.update(
                i,
                server.workspaces[i].updated(
                    uri,
                    kept,
                    urls::canonical(uri, kept, kept_uri),
                    text,
                    None,
                ),
            ),
            ..server
        },
    }
}

/// A directory that an editor opens, and whether it holds a configuration file.
#[derive(Debug)]
pub struct Folder {
    pub path: String,
    pub has_config: bool,
}

/// What a `Folder` holds.
pub struct FolderView {
    pub path: Seq<char>,
    pub has_config: bool,
}

impl DeepView for Folder {
    type V = FolderView;

    open spec fn deep_view(&self) -> FolderView {
        FolderView { path: self.path@, has_config: self.has_config }
    }
}

/// The first folder from index `from` on that a path lies in.
pub open spec fn folder_from(
    folders: Seq<FolderView>,
    path: Seq<char>,
    platform: Platform,
    from: int,
) -> Option<int>
    decreases folders.len() - from,
{
    if from >= folders.len() {
        None
    } else if path::is_within(path, folders[from].path, platform) {
        Some(from)
    } else {
        folder_from(folders, path, platform, from + 1)
    }
}

/// The paths of the first `n` folders: those with a configuration file, or all.
pub open spec fn folder_paths(folders: Seq<FolderView>, configured: bool, n: int) -> Seq<Seq<char>>
    decreases n,
{
    if n <= 0 {
        Seq::empty()
    } else if configured && !folders[n - 1].has_config {
        folder_paths(folders, configured, n - 1)
    } else {
        folder_paths(folders, configured, n - 1).push(folders[n - 1].path)
    }
}

/// The folders that become workspaces at the start: with a configuration file given, the one that
/// it lies in, else the first; without, those that have one, or all where none has.
pub open spec fn first_roots(
    folders: Seq<FolderView>,
    config_override: Option<Seq<char>>,
    platform: Platform,
) -> Seq<Seq<char>> {
    match config_override {
        Some(path) => if folders.len() == 0 {
            Seq::empty()
        } else {
            match folder_from(folders, path, platform, 0) {
                Some(i) => seq![folders[i].path],
                None => seq![folders[0].path],
            }
        },
        None => {
            let configured = folder_paths(folders, true, folders.len() as int);
            if configured.len() == 0 {
                folder_paths(folders, false, folders.len() as int)
            } else {
                configured
            }
        },
    }
}

/// The paths of folders: those with a configuration file, or all.
fn list_folders(folders: &[Folder], configured: bool) -> (paths: Vec<String>)
    ensures
        paths.deep_view() == folder_paths(folders.deep_view(), configured, folders@.len() as int),
{
    let ghost all = folders.deep_view();
    let mut paths: Vec<String> = Vec::new();
    assert(paths.deep_view() =~= Seq::<Seq<char>>::empty());
    let mut n: usize = 0;
    while n < folders.len()
        invariant
            n <= folders@.len(),
            all == folders.deep_view(),
            paths.deep_view() == folder_paths(all, configured, n as int),
        decreases folders@.len() - n,
    {
        assert(all[n as int] == folders@[n as int].deep_view());
        if !configured || folders[n].has_config {
            let ghost before = paths.deep_view();
            paths.push(folders[n].path.clone());
            assert(paths.deep_view() =~= before.push(all[n as int].path));
        }
        n += 1;
    }
    paths
}

/// The first folder that a path lies in.
fn find_folder(folders: &[Folder], path: &str, platform: Platform) -> (found: Option<usize>)
    ensures
        folder_from(folders.deep_view(), path@, platform, 0) == match found {
            Some(i) => Some(i as int),
            None => None,
        },
        found matches Some(i) ==> i < folders@.len(),
{
    let ghost all = folders.deep_view();
    let mut n: usize = 0;
    while n < folders.len()
        invariant
            n <= folders@.len(),
            all == folders.deep_view(),
            folder_from(all, path@, platform, 0) == folder_from(all, path@, platform, n as int),
        decreases folders@.len() - n,
    {
        assert(all[n as int] == folders@[n as int].deep_view());
        if path::within(path, folders[n].path.as_str(), platform) {
            return Some(n);
        }
        n += 1;
    }
    None
}

/// The folders that become workspaces at the start on a platform.
pub fn initialization_roots_on(
    platform: Platform,
    folders: &[Folder],
    config_override: Option<&str>,
) -> (roots: Vec<String>)
    ensures
        roots.deep_view() == first_roots(
            folders.deep_view(),
            config_override.deep_view(),
            platform,
        ),
{
    let ghost all = folders.deep_view();
    assert(all.len() == folders@.len());
    if let Some(path) = config_override {
        let mut roots: Vec<String> = Vec::new();
        assert(roots.deep_view() =~= Seq::<Seq<char>>::empty());
        if folders.len() == 0 {
            return roots;
        }
        let chosen: usize = match find_folder(folders, path, platform) {
            Some(i) => i,
            None => 0,
        };
        assert(all[chosen as int] == folders@[chosen as int].deep_view());
        roots.push(folders[chosen].path.clone());
        assert(roots.deep_view() =~= seq![all[chosen as int].path]);
        return roots;
    }
    let configured = list_folders(folders, true);
    assert(configured.deep_view().len() == configured@.len());
    if configured.len() == 0 {
        list_folders(folders, false)
    } else {
        configured
    }
}

/// The folders that become workspaces at the start.
pub fn initialization_roots(folders: &[Folder], config_override: Option<&str>) -> (roots: Vec<
    String,
>)
    ensures
        exists|platform: Platform| #[trigger]
            path::is_here(platform) && roots.deep_view() == first_roots(
                folders.deep_view(),
                config_override.deep_view(),
                platform,
            ),
{
    initialization_roots_on(path::platform_here(), folders, config_override)
}

} // verus!
