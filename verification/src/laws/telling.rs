//! What an editor is told of the files of a workspace.
use crate::diagnostics;
use crate::laws;
use crate::laws::members;
use crate::path;
use crate::sort;
use crate::text;
use crate::workspace;
use vstd::prelude::*;

verus! {

/// Whether a diagnostic is found for a file.
pub open spec fn is_found(
    findings: Seq<diagnostics::FindingView>,
    uri: Seq<char>,
    diagnostic: diagnostics::DiagnosticView,
) -> bool {
    findings.contains(diagnostics::FindingView { uri, diagnostic })
}

/// In a file exactly what is found for it is shown.
pub proof fn what_is_found_is_shown(
    findings: Seq<diagnostics::FindingView>,
    uri: Seq<char>,
    diagnostic: diagnostics::DiagnosticView,
)
    ensures
        diagnostics::shown_in(findings, uri).contains(diagnostic) <==> is_found(
            findings,
            uri,
            diagnostic,
        ),
{
    let keep = |finding: diagnostics::FindingView| finding.uri == uri;
    let kept = sort::kept(findings, keep);
    let wanted = diagnostics::FindingView { uri, diagnostic };
    let shown = diagnostics::shown_in(findings, uri);
    members::kept_members(findings, keep, wanted);
    if kept.contains(wanted) {
        assert(shown[kept.index_of(wanted)] == diagnostic);
    }
    if shown.contains(diagnostic) {
        let k = shown.index_of(diagnostic);
        laws::lemma_kept_holds(findings, keep);
        assert(keep(kept[k]));
        assert(kept[k] == wanted);
        assert(kept.contains(kept[k]));
    }
}

/// Whether one of the first `n` URIs is `uri`.
pub open spec fn is_among(uris: Seq<Seq<char>>, n: int, uri: Seq<char>) -> bool {
    exists|i: int| 0 <= i < n && #[trigger] uris[i] == uri
}

proof fn lemma_cache(
    findings: Seq<diagnostics::FindingView>,
    cache: Seq<diagnostics::KnownView>,
    uris: Seq<Seq<char>>,
    paths: Seq<Option<Seq<char>>>,
    n: int,
    uri: Seq<char>,
)
    requires
        0 <= n <= uris.len(),
    ensures
        diagnostics::known(diagnostics::cache_after(findings, cache, uris, paths, n), uri)
            == if is_among(uris, n, uri) {
            Some(diagnostics::shown_in(findings, uri))
        } else {
            diagnostics::known(cache, uri)
        },
    decreases n,
{
    if n > 0 {
        lemma_cache(findings, cache, uris, paths, n - 1, uri);
        let before = diagnostics::cache_after(findings, cache, uris, paths, n - 1);
        let file = diagnostics::FileDiagnosticsView {
            uri: uris[n - 1],
            diagnostics: diagnostics::shown_in(findings, uris[n - 1]),
        };
        laws::telling_is_remembered(before, file, diagnostics::path_at(paths, n - 1), uri);
        if uris[n - 1] == uri {
            assert(is_among(uris, n, uri));
        } else if is_among(uris, n, uri) {
            let i = choose|i: int| 0 <= i < n && #[trigger] uris[i] == uri;
            assert(i < n - 1 && uris[i] == uri);
        }
    }
}

proof fn lemma_announced(
    findings: Seq<diagnostics::FindingView>,
    cache: Seq<diagnostics::KnownView>,
    uris: Seq<Seq<char>>,
    paths: Seq<Option<Seq<char>>>,
    n: int,
    file: diagnostics::FileDiagnosticsView,
)
    requires
        0 <= n <= uris.len(),
    ensures
        diagnostics::announced(findings, cache, uris, paths, n).contains(file) <==> is_among(
            uris,
            n,
            file.uri,
        ) && file.diagnostics == diagnostics::shown_in(findings, file.uri) && diagnostics::known(
            cache,
            file.uri,
        ) != Some(file.diagnostics),
    decreases n,
{
    if n > 0 {
        lemma_announced(findings, cache, uris, paths, n - 1, file);
        lemma_cache(findings, cache, uris, paths, n - 1, uris[n - 1]);
        let front = diagnostics::announced(findings, cache, uris, paths, n - 1);
        let all = diagnostics::announced(findings, cache, uris, paths, n);
        let one = diagnostics::FileDiagnosticsView {
            uri: uris[n - 1],
            diagnostics: diagnostics::shown_in(findings, uris[n - 1]),
        };
        members::lemma_added(front, seq![one], file);
        assert(front.push(one) =~= front + seq![one]);
        assert(seq![one].contains(file) <==> file == one) by {
            assert(seq![one][0] == one);
        }
        if is_among(uris, n, file.uri) && !is_among(uris, n - 1, file.uri) {
            let i = choose|i: int| 0 <= i < n && #[trigger] uris[i] == file.uri;
            assert(i == n - 1);
        }
        if is_among(uris, n - 1, file.uri) {
            let i = choose|i: int| 0 <= i < n - 1 && #[trigger] uris[i] == file.uri;
            assert(uris[i] == file.uri);
        }
        assert(uris[n - 1] == one.uri);
    }
}

/// Whether an editor has to be told of a file, if what is shown in it changed: something is found
/// for it, or something was told of it and it lies in the workspace.
pub open spec fn is_concerned(
    held: workspace::WorkspaceView,
    before: Seq<diagnostics::KnownView>,
    uri: Seq<char>,
) -> bool {
    ||| exists|diagnostic: diagnostics::DiagnosticView|
        is_found(diagnostics::findings(held), uri, diagnostic)
    ||| exists|k: int|
        0 <= k < before.len() && (#[trigger] before[k]).uri == uri && (
        before[k].path matches Some(path) && path::is_inside(path, held.root, held.platform))
}

proof fn lemma_news(
    held: workspace::WorkspaceView,
    before: Seq<diagnostics::KnownView>,
    uri: Seq<char>,
)
    ensures
        diagnostics::news_of(held, before).contains(uri) <==> is_concerned(held, before, uri),
{
    let findings = diagnostics::findings(held);
    let inside = diagnostics::inside_of(before, held.root, held.platform);
    let named = findings.map_values(|finding: diagnostics::FindingView| finding.uri);
    let uris = named + inside;
    let kept = text::distinct(uris, uris.len() as int);
    laws::lemma_distinct_members(uris, uris.len() as int);
    members::sorted_members::<String>(kept, uri);
    members::lemma_added(named, inside, uri);
    laws::lemma_inside(before, held.root, held.platform, uri, before.len() as int);
    if uris.contains(uri) {
        assert(kept.contains(uris[uris.index_of(uri)]));
    }
    if named.contains(uri) {
        let k = named.index_of(uri);
        assert(findings.contains(findings[k]));
        assert(is_found(findings, uri, findings[k].diagnostic));
    }
    if exists|diagnostic: diagnostics::DiagnosticView| is_found(findings, uri, diagnostic) {
        let diagnostic = choose|diagnostic: diagnostics::DiagnosticView|
            is_found(findings, uri, diagnostic);
        let k = findings.index_of(diagnostics::FindingView { uri, diagnostic });
        assert(named[k] == uri);
    }
}

/// An editor is told exactly of those files in which something else is to be shown than it knew: of
/// each with all that is found for it, and of those in the workspace also where that is nothing.
/// It then knows that of them, and of the others what it knew.
pub proof fn changes_are_told(
    held: workspace::WorkspaceView,
    paths: Seq<Option<Seq<char>>>,
    before: Seq<diagnostics::KnownView>,
    told: Seq<diagnostics::FileDiagnosticsView>,
    after: Seq<diagnostics::KnownView>,
    file: diagnostics::FileDiagnosticsView,
)
    requires
        diagnostics::tells(held, paths, before, told, after),
    ensures
        told.contains(file) <==> is_concerned(held, before, file.uri) && file.diagnostics
            == diagnostics::shown_in(diagnostics::findings(held), file.uri) && diagnostics::known(
            before,
            file.uri,
        ) != Some(file.diagnostics),
        diagnostics::known(after, file.uri) == if is_concerned(held, before, file.uri) {
            Some(diagnostics::shown_in(diagnostics::findings(held), file.uri))
        } else {
            diagnostics::known(before, file.uri)
        },
{
    let uris = diagnostics::news_of(held, before);
    let findings = diagnostics::findings(held);
    lemma_news(held, before, file.uri);
    lemma_announced(findings, before, uris, paths, uris.len() as int, file);
    lemma_cache(findings, before, uris, paths, uris.len() as int, file.uri);
    if uris.contains(file.uri) {
        assert(uris[uris.index_of(file.uri)] == file.uri);
        assert(is_among(uris, uris.len() as int, file.uri));
    }
}

} // verus!
