//! Which workspaces the server holds, and what it tells of dictionaries.
use crate::diagnostics;
use crate::laws::members;
use crate::path;
use crate::pattern;
use crate::protocol;
use crate::server;
use crate::sort;
use crate::status;
use crate::workspace;
use crate::workspace::WorkspaceIndex;
use vstd::prelude::*;

verus! {

/// A folder that is taken away takes its workspace and its root with it, and no other.
pub proof fn folders_leave_with_their_workspace(
    before: server::ServerView,
    root: Seq<char>,
    sent: Seq<protocol::OutgoingView>,
    after: server::ServerView,
    held: workspace::WorkspaceView,
    other: Seq<char>,
)
    requires
        server::drops(before, Some(root), sent, after),
    ensures
        after.workspaces.contains(held) <==> before.workspaces.contains(held) && !path::is_same(
            held.root,
            root,
            before.platform,
        ),
        after.roots.contains(other) <==> before.roots.contains(other) && !path::is_same(
            other,
            root,
            before.platform,
        ),
        after.platform == before.platform,
        after.config_path_for(root) == before.config_path_for(root),
{
    members::kept_members(before.workspaces, server::without_root(root, before.platform), held);
    members::kept_members(before.roots, server::other_than(root, before.platform), other);
}

proof fn lemma_emptied(uris: Seq<Seq<char>>, n: int, uri: Seq<char>)
    requires
        0 <= n <= uris.len(),
    ensures
        server::emptied(uris, n).contains(
            protocol::OutgoingView::Diagnostics(
                diagnostics::FileDiagnosticsView { uri, diagnostics: Seq::empty() },
            ),
        ) <==> exists|i: int| 0 <= i < n && #[trigger] uris[i] == uri,
        server::emptied(uris, n).len() == n,
    decreases n,
{
    if n > 0 {
        lemma_emptied(uris, n - 1, uri);
        let front = server::emptied(uris, n - 1);
        let one = protocol::OutgoingView::Diagnostics(
            diagnostics::FileDiagnosticsView { uri: uris[n - 1], diagnostics: Seq::empty() },
        );
        let wanted = protocol::OutgoingView::Diagnostics(
            diagnostics::FileDiagnosticsView { uri, diagnostics: Seq::empty() },
        );
        members::lemma_added(front, seq![one], wanted);
        assert(front.push(one) =~= front + seq![one]);
        if uris[n - 1] == uri {
            assert(seq![one][0] == wanted);
        }
        if seq![one].contains(wanted) {
            assert(seq![one][0] == wanted);
        }
    }
}

/// When what is shown in the files of a workspace is taken back, each of these files is told to be
/// empty, and no other message is sent.
pub proof fn cleared_files_are_told_empty(
    held: workspace::WorkspaceView,
    known: Seq<diagnostics::KnownView>,
    sent: Seq<protocol::OutgoingView>,
    after: Seq<diagnostics::KnownView>,
    uri: Seq<char>,
)
    requires
        server::clears_one(held, Seq::empty(), known, sent, after),
    ensures
        sent.len() == diagnostics::files_to_clear(held, known).len(),
        sent.contains(
            protocol::OutgoingView::Diagnostics(
                diagnostics::FileDiagnosticsView { uri, diagnostics: Seq::empty() },
            ),
        ) <==> diagnostics::files_to_clear(held, known).contains(uri),
{
    let uris = diagnostics::files_to_clear(held, known);
    lemma_emptied(uris, uris.len() as int, uri);
    assert(sent =~= server::emptied(uris, uris.len() as int));
}

/// A workspace that is loaded is held with those that were, the deepest first.
pub proof fn loaded_workspaces_are_held(
    before: server::ServerView,
    loaded: workspace::WorkspaceView,
    root: Seq<char>,
    config_uri: Option<Seq<char>>,
    watching: server::WatchingView,
    process: u32,
    sent: Seq<protocol::OutgoingView>,
    after: server::ServerView,
    held: workspace::WorkspaceView,
    i: int,
    j: int,
)
    requires
        server::joins(before, loaded, root, config_uri, watching, process, sent, after),
    ensures
        after.workspaces.contains(held) <==> held == loaded || before.workspaces.contains(held),
        after.workspaces.len() == before.workspaces.len() + 1,
        0 <= i < j < after.workspaces.len() ==> after.workspaces[i].depth()
            >= after.workspaces[j].depth(),
        after.roots == before.roots,
{
    let all = before.workspaces.push(loaded);
    members::sorted_members::<WorkspaceIndex>(all, held);
    members::lemma_added(before.workspaces, seq![loaded], held);
    assert(all =~= before.workspaces + seq![loaded]);
    assert(seq![loaded].contains(held) <==> held == loaded) by {
        assert(seq![loaded][0] == loaded);
    }
    sort::sorting_orders::<WorkspaceIndex>(all);
    all.to_multiset_ensures();
    after.workspaces.to_multiset_ensures();
    if 0 <= i < j < after.workspaces.len() {
        assert(!<WorkspaceIndex as sort::Ranked>::ahead(after.workspaces[j], after.workspaces[i]));
    }
}

/// A folder is loaded where no workspace has it as its root, with the configuration that is set for
/// all, or else the one in the folder.
pub proof fn new_folders_are_loaded(server: server::ServerView, root: Seq<char>)
    ensures
        server::planned(server, Some(root)) is Some <==> forall|i: int|
            0 <= i < server.workspaces.len() ==> !path::is_same(
                (#[trigger] server.workspaces[i]).root,
                root,
                server.platform,
            ),
        server::planned(server, Some(root)) matches Some(plan) ==> plan.root == root
            && plan.config_path == server.config_path_for(root),
        server::planned(server, None) is None,
{
}

proof fn lemma_among(
    held: workspace::WorkspaceView,
    paths: Seq<Option<Seq<char>>>,
    n: int,
    path: Seq<char>,
    identity: pattern::IdentityView,
)
    requires
        0 <= n <= paths.len(),
    ensures
        (exists|k: int|
            0 <= k < status::dictionaries_among(held, paths, n).len() && (
            #[trigger] status::dictionaries_among(held, paths, n)[k]).path == path
                && status::dictionaries_among(held, paths, n)[k].identity == identity) <==> exists|
            i: int,
        |
            0 <= i < n && #[trigger] paths[i] == Some(path) && held.identity(path) == Some(identity),
    decreases n,
{
    if n > 0 {
        lemma_among(held, paths, n - 1, path, identity);
        let front = status::dictionaries_among(held, paths, n - 1);
        let all = status::dictionaries_among(held, paths, n);
        if exists|k: int|
            0 <= k < all.len() && (#[trigger] all[k]).path == path && all[k].identity == identity {
            let k = choose|k: int|
                0 <= k < all.len() && (#[trigger] all[k]).path == path && all[k].identity
                    == identity;
            if k < front.len() {
                assert(front[k] == all[k]);
            } else {
                assert(paths[n - 1] == Some(path));
            }
        }
        if exists|i: int|
            0 <= i < n && #[trigger] paths[i] == Some(path) && held.identity(path) == Some(
                identity,
            ) {
            let i = choose|i: int|
                0 <= i < n && #[trigger] paths[i] == Some(path) && held.identity(path) == Some(
                    identity,
                );
            if i < n - 1 {
                let k = choose|k: int|
                    0 <= k < front.len() && (#[trigger] front[k]).path == path && front[k].identity
                        == identity;
                assert(all[k] == front[k]);
            } else {
                assert(all[front.len() as int].path == path);
            }
        }
    }
}

proof fn lemma_no_repeats(all: Seq<status::DictionaryPathView>, n: int)
    requires
        0 <= n <= all.len(),
    ensures
        ({
            let kept = status::without_repeats(all, n);
            &&& forall|k: int| 0 <= k < kept.len() ==> all.contains(#[trigger] kept[k])
            &&& forall|i: int|
                0 <= i < n ==> exists|k: int|
                    0 <= k < kept.len() && (#[trigger] kept[k]).components == (
                    #[trigger] all[i]).components
            &&& n > 0 ==> kept.len() > 0 && kept.last().components == all[n - 1].components
        }),
    decreases n,
{
    if n > 0 {
        lemma_no_repeats(all, n - 1);
        let front = status::without_repeats(all, n - 1);
        let kept = status::without_repeats(all, n);
        assert(all.contains(all[n - 1]));
        assert forall|i: int| 0 <= i < n implies exists|k: int|
            0 <= k < kept.len() && (#[trigger] kept[k]).components == (
            #[trigger] all[i]).components by {
            if i < n - 1 {
                let k = choose|k: int|
                    0 <= k < front.len() && (#[trigger] front[k]).components == all[i].components;
                assert(kept[k] == front[k]);
            } else {
                assert(kept[kept.len() - 1].components == all[i].components);
            }
        }
    }
}

/// The dictionaries that are counted are those files of the workspace that its pattern matches: each
/// of them is one, and each such file stands at the place of one.
pub proof fn dictionaries_are_counted(
    held: workspace::WorkspaceView,
    paths: Seq<Option<Seq<char>>>,
    k: int,
    i: int,
    path: Seq<char>,
)
    ensures
        ({
            let found = status::dictionary_paths(held, paths);
            &&& 0 <= k < found.len() ==> held.identity(found[k].path) == Some(found[k].identity)
                && paths.contains(Some(found[k].path))
            &&& 0 <= i < paths.len() && paths[i] == Some(path) && held.identity(path) is Some
                ==> exists|m: int|
                0 <= m < found.len() && (#[trigger] found[m]).components == path::folded(
                    path::components(path, held.platform),
                    held.platform,
                )
        }),
{
    let among = status::dictionaries_among(held, paths, paths.len() as int);
    let all = sort::sorted::<status::DictionaryPath>(among);
    let found = status::dictionary_paths(held, paths);
    lemma_no_repeats(all, all.len() as int);
    lemma_components(held, paths, paths.len() as int);
    if 0 <= k < found.len() {
        assert(all.contains(found[k]));
        members::sorted_members::<status::DictionaryPath>(among, found[k]);
        let m = among.index_of(found[k]);
        assert(among[m].path == found[k].path);
        lemma_among(held, paths, paths.len() as int, found[k].path, found[k].identity);
        let i = choose|i: int|
            0 <= i < paths.len() && #[trigger] paths[i] == Some(found[k].path) && held.identity(
                found[k].path,
            ) == Some(found[k].identity);
        assert(paths.contains(paths[i]));
    }
    if 0 <= i < paths.len() && paths[i] == Some(path) && held.identity(path) is Some {
        lemma_among(held, paths, paths.len() as int, path, held.identity(path)->0);
        assert(paths[i] == Some(path));
        let m = choose|m: int| 0 <= m < among.len() && (#[trigger] among[m]).path == path;
        assert(among.contains(among[m]));
        members::sorted_members::<status::DictionaryPath>(among, among[m]);
        let n = all.index_of(among[m]);
        let s = choose|s: int|
            0 <= s < found.len() && (#[trigger] found[s]).components == all[n].components;
        assert(found[s].components == among[m].components);
    }
}

proof fn lemma_components(held: workspace::WorkspaceView, paths: Seq<Option<Seq<char>>>, n: int)
    requires
        0 <= n <= paths.len(),
    ensures
        forall|k: int|
            0 <= k < status::dictionaries_among(held, paths, n).len() ==> (
            #[trigger] status::dictionaries_among(held, paths, n)[k]).components == path::folded(
                path::components(
                    status::dictionaries_among(held, paths, n)[k].path,
                    held.platform,
                ),
                held.platform,
            ),
    decreases n,
{
    if n > 0 {
        lemma_components(held, paths, n - 1);
    }
}

proof fn lemma_path_with(
    all: Seq<status::DictionaryPathView>,
    locale: Seq<char>,
    namespace: Option<Seq<char>>,
    from: int,
)
    requires
        0 <= from,
    ensures
        match status::path_with(all, locale, namespace, from) {
            Some(path) => exists|k: int|
                from <= k < all.len() && (#[trigger] all[k]).path == path && all[k].identity.locale
                    == locale && all[k].identity.namespace == namespace,
            None => forall|k: int|
                from <= k < all.len() ==> !((#[trigger] all[k]).identity.locale == locale
                    && all[k].identity.namespace == namespace),
        },
    decreases all.len() - from,
{
    if from < all.len() {
        lemma_path_with(all, locale, namespace, from + 1);
    }
}

/// The status tells of the dictionaries as many as there are, and as the default one a dictionary
/// of the default locale and namespace, where there is one.
pub proof fn the_default_dictionary_is_told(
    held: workspace::WorkspaceView,
    config_path: Seq<char>,
    paths: Seq<Option<Seq<char>>>,
)
    ensures
        ({
            let told = status::status_of(held, config_path, paths);
            let found = status::dictionary_paths(held, paths);
            &&& told.dictionary_file_count == found.len()
            &&& told.default_locale == held.config.default_locale
            &&& told.generation == held.snapshot.generation
            &&& match told.default_dictionary_path {
                Some(shown) => exists|k: int|
                    0 <= k < found.len() && shown == crate::names::shown(
                        (#[trigger] found[k]).path,
                    ) && found[k].identity.locale == held.config.default_locale
                        && found[k].identity.namespace == held.config.default_namespace,
                None => forall|k: int|
                    0 <= k < found.len() ==> !((#[trigger] found[k]).identity.locale
                        == held.config.default_locale && found[k].identity.namespace
                        == held.config.default_namespace),
            }
        }),
{
    lemma_path_with(
        status::dictionary_paths(held, paths),
        held.config.default_locale,
        held.config.default_namespace,
        0,
    );
}

} // verus!
