//! The warnings and errors that are shown in files, and which of them an editor knows already.
use crate::chars;
use crate::config;
use crate::config::ConfigError;
use crate::dictionary;
use crate::index;
use crate::issue;
use crate::issue::WorkspaceIssue;
use crate::path;
use crate::path::Platform;
use crate::position;
use crate::position::{Position, Range};
use crate::search;
use crate::sort;
use crate::source;
use crate::source::{OccurrenceKind, SourceOccurrence};
use crate::text;
use crate::urls;
use crate::workspace;
use crate::workspace::WorkspaceIndex;
use vstd::prelude::*;

verus! {

/// How bad something is.
#[derive(Clone, Copy, Debug, PartialEq, Eq, Structural)]
pub enum Severity {
    Error,
    Warning,
}

/// Something that is shown in a file.
#[derive(Debug, PartialEq, Eq)]
pub struct Diagnostic {
    pub range: Range,
    pub severity: Severity,
    pub code: Option<String>,
    pub message: String,
    /// Whether the text is shown as something that can go.
    pub unnecessary: bool,
}

/// What a `Diagnostic` holds.
pub struct DiagnosticView {
    pub range: Range,
    pub severity: Severity,
    pub code: Option<Seq<char>>,
    pub message: Seq<char>,
    pub unnecessary: bool,
}

impl DeepView for Diagnostic {
    type V = DiagnosticView;

    open spec fn deep_view(&self) -> DiagnosticView {
        DiagnosticView {
            range: self.range,
            severity: self.severity,
            code: self.code.deep_view(),
            message: self.message@,
            unnecessary: self.unnecessary,
        }
    }
}

impl Clone for Diagnostic {
    fn clone(&self) -> (copy: Self)
        ensures
            copy == *self,
    {
        Diagnostic {
            range: self.range,
            severity: self.severity,
            code: text::copy(&self.code),
            message: self.message.clone(),
            unnecessary: self.unnecessary,
        }
    }
}

/// All that is shown in one file.
#[derive(Debug, PartialEq, Eq)]
pub struct FileDiagnostics {
    pub uri: String,
    pub diagnostics: Vec<Diagnostic>,
}

/// What a `FileDiagnostics` holds.
pub struct FileDiagnosticsView {
    pub uri: Seq<char>,
    pub diagnostics: Seq<DiagnosticView>,
}

impl DeepView for FileDiagnostics {
    type V = FileDiagnosticsView;

    open spec fn deep_view(&self) -> FileDiagnosticsView {
        FileDiagnosticsView { uri: self.uri@, diagnostics: self.diagnostics.deep_view() }
    }
}

/// All that an editor was told of one file, and the path of the file, where it has one.
#[derive(Debug)]
pub struct KnownFile {
    pub uri: String,
    pub diagnostics: Vec<Diagnostic>,
    pub path: Option<String>,
}

/// What a `KnownFile` holds.
pub struct KnownView {
    pub uri: Seq<char>,
    pub diagnostics: Seq<DiagnosticView>,
    pub path: Option<Seq<char>>,
}

impl DeepView for KnownFile {
    type V = KnownView;

    open spec fn deep_view(&self) -> KnownView {
        KnownView {
            uri: self.uri@,
            diagnostics: self.diagnostics.deep_view(),
            path: self.path.deep_view(),
        }
    }
}

/// Something to show, and the file to show it in.
#[derive(Debug)]
pub struct Finding {
    pub uri: String,
    pub diagnostic: Diagnostic,
}

/// What a `Finding` holds.
pub struct FindingView {
    pub uri: Seq<char>,
    pub diagnostic: DiagnosticView,
}

impl DeepView for Finding {
    type V = FindingView;

    open spec fn deep_view(&self) -> FindingView {
        FindingView { uri: self.uri@, diagnostic: self.diagnostic.deep_view() }
    }
}

/// A warning.
pub open spec fn warning(
    uri: Seq<char>,
    range: Range,
    message: Seq<char>,
    unnecessary: bool,
) -> FindingView {
    FindingView {
        uri,
        diagnostic: DiagnosticView {
            range,
            severity: Severity::Warning,
            code: None,
            message,
            unnecessary,
        },
    }
}

/// Whether two occurrences name the same key at the same place.
pub open spec fn same_place(first: source::OccurrenceView, second: source::OccurrenceView) -> bool {
    first.uri == second.uri && first.range == second.range && first.key == second.key
}

/// Whether a notable one of the first `n` occurrences stands at the same place.
pub open spec fn is_repeated(
    occurrences: Seq<source::OccurrenceView>,
    n: int,
    scopes: Seq<Seq<char>>,
    separator: Seq<char>,
    occurrence: source::OccurrenceView,
) -> bool {
    exists|i: int|
        0 <= i < n && workspace::is_notable(#[trigger] occurrences[i], scopes, separator)
            && same_place(occurrences[i], occurrence)
}

/// The ignored scopes of a workspace, each once.
pub open spec fn scopes_of(config: config::ConfigView) -> Seq<Seq<char>> {
    text::distinct(config.ignored_scopes, config.ignored_scopes.len() as int)
}

/// The warnings for the first `n` ignored occurrences.
pub open spec fn ignored_findings(
    workspace: workspace::WorkspaceView,
    occurrences: Seq<source::OccurrenceView>,
    n: int,
) -> Seq<FindingView>
    decreases n,
{
    if n <= 0 {
        Seq::empty()
    } else {
        let front = ignored_findings(workspace, occurrences, n - 1);
        let occurrence = occurrences[n - 1];
        let scopes = scopes_of(workspace.config);
        let separator = workspace.config.key_separator;
        if workspace::is_notable(occurrence, scopes, separator) && !is_repeated(
            occurrences,
            n - 1,
            scopes,
            separator,
            occurrence,
        ) {
            match position::location_of(workspace.snapshot, occurrence.uri, occurrence.range) {
                Some(location) => front.push(
                    warning(
                        occurrence.uri,
                        location.range,
                        "Translation key \""@ + occurrence.key
                            + "\" belongs to an ignored scope"@,
                        false,
                    ),
                ),
                None => front,
            }
        } else {
            front
        }
    }
}

/// The warnings for the first `n` translations that are not used.
pub open spec fn unused_findings(
    workspace: workspace::WorkspaceView,
    entries: Seq<dictionary::EntryView>,
    n: int,
) -> Seq<FindingView>
    decreases n,
{
    if n <= 0 {
        Seq::empty()
    } else {
        let front = unused_findings(workspace, entries, n - 1);
        let entry = entries[n - 1];
        if index::is_used(
            workspace.snapshot.occurrences_in(entry.namespace),
            entry.key,
            workspace.config.key_separator,
        ) {
            front
        } else {
            match position::location_of(workspace.snapshot, entry.uri, entry.key_range) {
                Some(location) => front.push(
                    warning(
                        entry.uri,
                        location.range,
                        "Translation key \""@ + entry.key + "\" seems unused"@,
                        true,
                    ),
                ),
                None => front,
            }
        }
    }
}

/// All that is to be shown in the files of a workspace.
pub open spec fn findings(workspace: workspace::WorkspaceView) -> Seq<FindingView> {
    let ignored = workspace.snapshot.ignored();
    let leaves = index::default_leaves(workspace.snapshot, workspace.config.default_locale);
    ignored_findings(workspace, ignored, ignored.len() as int) + if
        workspace.preferences.show_unused_keys {
        unused_findings(workspace, leaves, leaves.len() as int)
    } else {
        Seq::empty()
    }
}

/// What is to be shown in one file.
pub open spec fn shown_in(findings: Seq<FindingView>, uri: Seq<char>) -> Seq<DiagnosticView> {
    sort::kept(findings, |finding: FindingView| finding.uri == uri).map_values(
        |finding: FindingView| finding.diagnostic,
    )
}

/// Where a file stands among `files[from..]`.
pub open spec fn shown_place(files: Seq<KnownView>, uri: Seq<char>, from: int) -> Option<int>
    decreases files.len() - from,
{
    if from >= files.len() {
        None
    } else if files[from].uri == uri {
        Some(from)
    } else {
        shown_place(files, uri, from + 1)
    }
}

/// What an editor was told last of a file.
pub open spec fn known(cache: Seq<KnownView>, uri: Seq<char>) -> Option<
    Seq<DiagnosticView>,
> {
    match shown_place(cache, uri, 0) {
        Some(i) => Some(cache[i].diagnostics),
        None => None,
    }
}

/// What an editor knows after it was told of a file; its path is kept from the first time on.
pub open spec fn told(
    cache: Seq<KnownView>,
    file: FileDiagnosticsView,
    path: Option<Seq<char>>,
) -> Seq<KnownView> {
    match shown_place(cache, file.uri, 0) {
        Some(i) => cache.update(i, KnownView { diagnostics: file.diagnostics, ..cache[i] }),
        None => cache.push(KnownView { uri: file.uri, diagnostics: file.diagnostics, path }),
    }
}

/// What an editor knows after a file was forgotten.
pub open spec fn forgotten(cache: Seq<KnownView>, uri: Seq<char>) -> Seq<KnownView> {
    match shown_place(cache, uri, 0) {
        Some(i) => cache.remove(i),
        None => cache,
    }
}

/// Of the first `n` files those whose paths lie in a directory.
pub open spec fn inside_from(
    cache: Seq<KnownView>,
    root: Seq<char>,
    platform: Platform,
    n: int,
) -> Seq<Seq<char>>
    decreases n,
{
    if n <= 0 {
        Seq::empty()
    } else {
        let front = inside_from(cache, root, platform, n - 1);
        if cache[n - 1].path matches Some(path) && path::is_inside(path, root, platform) {
            front.push(cache[n - 1].uri)
        } else {
            front
        }
    }
}

/// The files that an editor was told of and that lie in a directory.
pub open spec fn inside_of(
    cache: Seq<KnownView>,
    root: Seq<char>,
    platform: Platform,
) -> Seq<Seq<char>> {
    inside_from(cache, root, platform, cache.len() as int)
}

/// The files to tell of: those with something to show and those told of before, by URI.
pub open spec fn files_to_tell(findings: Seq<FindingView>, inside: Seq<Seq<char>>) -> Seq<
    Seq<char>,
> {
    let uris = findings.map_values(|finding: FindingView| finding.uri) + inside;
    sort::sorted::<String>(text::distinct(uris, uris.len() as int))
}

/// The path at `i`, where one is given.
pub open spec fn path_at(paths: Seq<Option<Seq<char>>>, i: int) -> Option<Seq<char>> {
    if i < paths.len() {
        paths[i]
    } else {
        None
    }
}

/// What an editor knows after it was told of the first `n` files as far as they changed, given the
/// paths of the files.
pub open spec fn cache_after(
    findings: Seq<FindingView>,
    cache: Seq<KnownView>,
    uris: Seq<Seq<char>>,
    paths: Seq<Option<Seq<char>>>,
    n: int,
) -> Seq<KnownView>
    decreases n,
{
    if n <= 0 {
        cache
    } else {
        let before = cache_after(findings, cache, uris, paths, n - 1);
        let file = FileDiagnosticsView {
            uri: uris[n - 1],
            diagnostics: shown_in(findings, uris[n - 1]),
        };
        if known(before, file.uri) == Some(file.diagnostics) {
            before
        } else {
            told(before, file, path_at(paths, n - 1))
        }
    }
}

/// What an editor is told of the first `n` files: those that changed.
pub open spec fn announced(
    findings: Seq<FindingView>,
    cache: Seq<KnownView>,
    uris: Seq<Seq<char>>,
    paths: Seq<Option<Seq<char>>>,
    n: int,
) -> Seq<FileDiagnosticsView>
    decreases n,
{
    if n <= 0 {
        Seq::empty()
    } else {
        let front = announced(findings, cache, uris, paths, n - 1);
        let before = cache_after(findings, cache, uris, paths, n - 1);
        let file = FileDiagnosticsView {
            uri: uris[n - 1],
            diagnostics: shown_in(findings, uris[n - 1]),
        };
        if known(before, file.uri) == Some(file.diagnostics) {
            front
        } else {
            front.push(file)
        }
    }
}

/// The files of a workspace to tell an editor of that knew `before`.
pub open spec fn news_of(workspace: workspace::WorkspaceView, before: Seq<KnownView>) -> Seq<
    Seq<char>,
> {
    files_to_tell(
        findings(workspace),
        inside_of(before, workspace.root, workspace.platform),
    )
}

/// Whether an editor that knew `before` is told `told_now` of a workspace and then knows `after`,
/// given the paths of the files to tell of.
pub open spec fn tells(
    workspace: workspace::WorkspaceView,
    paths: Seq<Option<Seq<char>>>,
    before: Seq<KnownView>,
    told_now: Seq<FileDiagnosticsView>,
    after: Seq<KnownView>,
) -> bool {
    let uris = news_of(workspace, before);
    let found = findings(workspace);
    &&& told_now == announced(found, before, uris, paths, uris.len() as int)
    &&& after == cache_after(found, before, uris, paths, uris.len() as int)
}

/// The error that is shown in a configuration file.
pub open spec fn config_diagnostic(error: config::ConfigErrorView, config_path: Seq<char>) -> DiagnosticView {
    let found = issue::config_issue(error, config_path);
    let line = place_before(found.line);
    let character = place_before(found.column);
    DiagnosticView {
        range: Range {
            start: Position { line, character },
            end: Position {
                line,
                character: if character < u32::MAX {
                    (character + 1) as u32
                } else {
                    character
                },
            },
        },
        severity: Severity::Error,
        code: Some(found.code),
        message: found.summary,
        unnecessary: false,
    }
}

/// A place from one as a place from zero, cut to 32 bits; the first where none is given.
pub open spec fn place_before(place: Option<usize>) -> u32 {
    match place {
        None => 0,
        Some(place) => if place == 0 {
            0
        } else {
            (place - 1) as u32
        },
    }
}

/// The files that an editor that knew `before` is told to show nothing in, when a workspace goes.
pub open spec fn files_to_clear(
    workspace: workspace::WorkspaceView,
    before: Seq<KnownView>,
) -> Seq<Seq<char>> {
    let leaves = index::default_leaves(workspace.snapshot, workspace.config.default_locale);
    let uris = leaves.map_values(|entry: dictionary::EntryView| entry.uri) + inside_of(
        before,
        workspace.root,
        workspace.platform,
    );
    sort::sorted::<String>(text::distinct(uris, uris.len() as int))
}

/// What an editor knows after the first `n` files were forgotten.
pub open spec fn cache_without(cache: Seq<KnownView>, uris: Seq<Seq<char>>, n: int) -> Seq<
    KnownView,
>
    decreases n,
{
    if n <= 0 {
        cache
    } else {
        forgotten(cache_without(cache, uris, n - 1), uris[n - 1])
    }
}

/// A range as it is logged.
pub open spec fn range_text(range: Range) -> Seq<char> {
    chars::decimal(range.start.line as nat, 0) + ":"@ + chars::decimal(
        range.start.character as nat,
        0,
    ) + "-"@ + chars::decimal(range.end.line as nat, 0) + ":"@ + chars::decimal(
        range.end.character as nat,
        0,
    )
}

/// A diagnostic as it is logged.
pub open spec fn diagnostic_text(diagnostic: DiagnosticView) -> Seq<char> {
    range_text(diagnostic.range) + " "@ + diagnostic.message
}

/// What is logged when an editor is told of a file.
pub open spec fn trace_text(process: u32, file: FileDiagnosticsView) -> Seq<char> {
    "LocaleBreeze diagnostics pid="@ + chars::decimal(process as nat, 0) + " uri="@ + file.uri
        + " count="@ + chars::decimal(file.diagnostics.len(), 0) + " ["@ + search::joined(
        file.diagnostics.map_values(|diagnostic: DiagnosticView| diagnostic_text(diagnostic)),
        " | "@,
    ) + "]"@
}

/// What an editor was told last of each file.
#[derive(Debug)]
pub struct DiagnosticCache {
    files: Vec<KnownFile>,
}

impl DeepView for DiagnosticCache {
    type V = Seq<KnownView>;

    closed spec fn deep_view(&self) -> Seq<KnownView> {
        self.files.deep_view()
    }
}

/// Copies of diagnostics.
fn copy_diagnostics(diagnostics: &[Diagnostic]) -> (copies: Vec<Diagnostic>)
    ensures
        copies.deep_view() == diagnostics.deep_view(),
{
    let mut copies: Vec<Diagnostic> = Vec::new();
    let mut n: usize = 0;
    while n < diagnostics.len()
        invariant
            n <= diagnostics@.len(),
            copies@ == diagnostics@.take(n as int),
        decreases diagnostics@.len() - n,
    {
        copies.push(diagnostics[n].clone());
        assert(diagnostics@.take(n + 1) =~= diagnostics@.take(n as int).push(
            diagnostics@[n as int],
        ));
        n += 1;
    }
    assert(diagnostics@.take(n as int) =~= diagnostics@);
    assert(copies.deep_view() =~= diagnostics.deep_view());
    copies
}

/// Whether two diagnostics say the same.
fn same_diagnostic(left: &Diagnostic, right: &Diagnostic) -> (same: bool)
    ensures
        same == (left.deep_view() == right.deep_view()),
{
    let same_code: bool = match (&left.code, &right.code) {
        (Some(left), Some(right)) => text::same(left.as_str(), right.as_str()),
        (None, None) => true,
        _ => false,
    };
    same_code && left.range == right.range && left.severity == right.severity && left.unnecessary
        == right.unnecessary && text::same(left.message.as_str(), right.message.as_str())
}

/// Whether two lists of diagnostics say the same.
fn same_diagnostics(left: &[Diagnostic], right: &[Diagnostic]) -> (same: bool)
    ensures
        same == (left.deep_view() == right.deep_view()),
{
    let ghost a = left.deep_view();
    let ghost b = right.deep_view();
    assert(a.len() == left@.len());
    assert(b.len() == right@.len());
    if left.len() != right.len() {
        return false;
    }
    let mut n: usize = 0;
    while n < left.len()
        invariant
            n <= left@.len(),
            left@.len() == right@.len(),
            a == left.deep_view(),
            b == right.deep_view(),
            forall|i: int| 0 <= i < n ==> a[i] == b[i],
        decreases left@.len() - n,
    {
        assert(a[n as int] == left@[n as int].deep_view());
        assert(b[n as int] == right@[n as int].deep_view());
        if !same_diagnostic(&left[n], &right[n]) {
            return false;
        }
        n += 1;
    }
    assert(a =~= b);
    true
}

impl DiagnosticCache {
    /// A cache for an editor that was told nothing yet.
    pub fn new() -> (cache: Self)
        ensures
            cache.deep_view() == Seq::<KnownView>::empty(),
    {
        let cache = DiagnosticCache { files: Vec::new() };
        assert(cache.files.deep_view() =~= Seq::<KnownView>::empty());
        cache
    }

    fn place(&self, uri: &str) -> (place: Option<usize>)
        ensures
            match place {
                Some(i) => shown_place(self.deep_view(), uri@, 0) == Some(i as int) && i
                    < self.files@.len(),
                None => shown_place(self.deep_view(), uri@, 0) is None,
            },
    {
        let ghost all = self.files.deep_view();
        let mut n: usize = 0;
        while n < self.files.len()
            invariant
                n <= self.files@.len(),
                all == self.files.deep_view(),
                shown_place(all, uri@, 0) == shown_place(all, uri@, n as int),
            decreases self.files@.len() - n,
        {
            assert(all[n as int] == self.files@[n as int].deep_view());
            if text::same(self.files[n].uri.as_str(), uri) {
                return Some(n);
            }
            n += 1;
        }
        None
    }

    /// Whether an editor knows that these diagnostics are in a file.
    pub fn knows(&self, uri: &str, diagnostics: &[Diagnostic]) -> (found: bool)
        ensures
            found == (known(self.deep_view(), uri@) == Some(diagnostics.deep_view())),
    {
        match self.place(uri) {
            Some(i) => {
                assert(self.files.deep_view()[i as int] == self.files@[i as int].deep_view());
                same_diagnostics(&self.files[i].diagnostics, diagnostics)
            },
            None => false,
        }
    }

    /// Notes what an editor is told of a file, and its path where the editor was told of it first.
    pub fn tell(&mut self, file: FileDiagnostics, path: Option<String>)
        ensures
            final(self).deep_view() == told(
                old(self).deep_view(),
                file.deep_view(),
                path.deep_view(),
            ),
    {
        let ghost before = self.files.deep_view();
        match self.place(file.uri.as_str()) {
            Some(i) => {
                let path = text::copy(&self.files[i].path);
                assert(before[i as int] == self.files@[i as int].deep_view());
                proof {
                    lemma_known_uri(before, file.uri@, 0);
                }
                let known = KnownFile { uri: file.uri, diagnostics: file.diagnostics, path };
                self.files.set(i, known);
                assert(self.files.deep_view() =~= before.update(i as int, known.deep_view()));
            },
            None => {
                let known = KnownFile { uri: file.uri, diagnostics: file.diagnostics, path };
                self.files.push(known);
                assert(self.files.deep_view() =~= before.push(known.deep_view()));
            },
        }
    }

    /// Forgets what an editor was told of a file, and says whether there was anything.
    pub fn forget(&mut self, uri: &str) -> (removed: bool)
        ensures
            final(self).deep_view() == forgotten(old(self).deep_view(), uri@),
            removed == (known(old(self).deep_view(), uri@) is Some),
    {
        let ghost before = self.files.deep_view();
        match self.place(uri) {
            Some(i) => {
                self.files.remove(i);
                assert(self.files.deep_view() =~= before.remove(i as int));
                true
            },
            None => false,
        }
    }

    /// The files that an editor was told of and that lie in a directory.
    pub fn inside(&self, root: &str, platform: Platform) -> (uris: Vec<String>)
        ensures
            uris.deep_view() == inside_of(self.deep_view(), root@, platform),
    {
        let ghost all = self.files.deep_view();
        let mut uris: Vec<String> = Vec::new();
        assert(uris.deep_view() =~= Seq::<Seq<char>>::empty());
        assert(all.len() == self.files@.len());
        let mut n: usize = 0;
        while n < self.files.len()
            invariant
                n <= self.files@.len(),
                all == self.files.deep_view(),
                uris.deep_view() == inside_from(all, root@, platform, n as int),
            decreases self.files@.len() - n,
        {
            assert(all[n as int] == self.files@[n as int].deep_view());
            if let Some(path) = &self.files[n].path {
                if path::path_is_within(path.as_str(), root, platform) {
                    let ghost before = uris.deep_view();
                    uris.push(self.files[n].uri.clone());
                    assert(uris.deep_view() =~= before.push(all[n as int].uri));
                }
            }
            n += 1;
        }
        uris
    }
}

proof fn lemma_known_uri(files: Seq<KnownView>, uri: Seq<char>, from: int)
    requires
        0 <= from,
    ensures
        shown_place(files, uri, from) matches Some(i) ==> files[i].uri == uri,
    decreases files.len() - from,
{
    if from < files.len() && files[from].uri != uri {
        lemma_known_uri(files, uri, from + 1);
    }
}

/// A warning.
fn warn(uri: &str, range: Range, message: String, unnecessary: bool) -> (finding: Finding)
    ensures
        finding.deep_view() == warning(uri@, range, message@, unnecessary),
{
    Finding {
        uri: uri.to_owned(),
        diagnostic: Diagnostic {
            range,
            severity: Severity::Warning,
            code: None,
            message,
            unnecessary,
        },
    }
}

/// A message about a translation key.
fn about_key(key: &str, rest: &str) -> (message: String)
    ensures
        message@ == "Translation key \""@ + key@ + rest@,
{
    let mut message = "Translation key \"".to_owned();
    message.append(key);
    message.append(rest);
    message
}

/// Whether an ignored occurrence is one to speak of.
fn notable(workspace: &WorkspaceIndex, occurrence: &SourceOccurrence) -> (found: bool)
    ensures
        found == workspace::is_notable(
            occurrence.deep_view(),
            scopes_of(workspace.deep_view().config),
            workspace.deep_view().config.key_separator,
        ),
{
    let scope_ignored: bool = match &occurrence.scope {
        Some(scope) => workspace.is_ignored_key(scope),
        None => false,
    };
    occurrence.range.0.start < occurrence.range.0.end && (occurrence.kind
        == OccurrenceKind::ScopeDeclaration || !scope_ignored)
}

/// The warnings for ignored occurrences.
fn find_ignored(workspace: &WorkspaceIndex) -> (found: Vec<Finding>)
    ensures
        found.deep_view() == ignored_findings(
            workspace.deep_view(),
            workspace.deep_view().snapshot.ignored(),
            workspace.deep_view().snapshot.ignored().len() as int,
        ),
{
    let ghost view = workspace.deep_view();
    let ghost scopes = scopes_of(view.config);
    let ghost separator = view.config.key_separator;
    let occurrences = workspace.snapshot().ignored_occurrences();
    let ghost all = occurrences.deep_view();
    assert(all.len() == occurrences@.len());
    let mut found: Vec<Finding> = Vec::new();
    assert(found.deep_view() =~= Seq::<FindingView>::empty());
    let mut n: usize = 0;
    while n < occurrences.len()
        invariant
            n <= occurrences@.len(),
            view == workspace.deep_view(),
            scopes == scopes_of(view.config),
            separator == view.config.key_separator,
            all == occurrences.deep_view(),
            found.deep_view() == ignored_findings(view, all, n as int),
        decreases occurrences@.len() - n,
    {
        let occurrence = occurrences[n];
        assert(all[n as int] == occurrence.deep_view());
        if notable(workspace, occurrence) {
            let mut repeated: bool = false;
            let mut k: usize = 0;
            while k < n
                invariant
                    k <= n < occurrences@.len(),
                    view == workspace.deep_view(),
                    scopes == scopes_of(view.config),
                    separator == view.config.key_separator,
                    all == occurrences.deep_view(),
                    all[n as int] == occurrence.deep_view(),
                    repeated == is_repeated(all, k as int, scopes, separator, all[n as int]),
                decreases n - k,
            {
                let other = occurrences[k];
                assert(all[k as int] == other.deep_view());
                let same: bool = text::same(other.uri.as_str(), occurrence.uri.as_str())
                    && other.range.0.start == occurrence.range.0.start && other.range.0.end
                    == occurrence.range.0.end && other.key.same(&occurrence.key);
                assert(same == same_place(all[k as int], all[n as int]));
                if same && notable(workspace, other) {
                    repeated = true;
                }
                k += 1;
            }
            if !repeated {
                if let Some(location) = position::location(
                    workspace.snapshot(),
                    occurrence.uri.as_str(),
                    &occurrence.range,
                ) {
                    let ghost before = found.deep_view();
                    let message = about_key(
                        occurrence.key.as_str(),
                        "\" belongs to an ignored scope",
                    );
                    let finding = warn(
                        occurrence.uri.as_str(),
                        location.range,
                        message,
                        false,
                    );
                    found.push(finding);
                    assert(found.deep_view() =~= before.push(finding.deep_view()));
                }
            }
        }
        n += 1;
    }
    found
}

/// The warnings for translations that are not used.
fn find_unused(workspace: &WorkspaceIndex) -> (found: Vec<Finding>)
    ensures
        found.deep_view() == ({
            let leaves = index::default_leaves(
                workspace.deep_view().snapshot,
                workspace.deep_view().config.default_locale,
            );
            unused_findings(workspace.deep_view(), leaves, leaves.len() as int)
        }),
{
    let ghost view = workspace.deep_view();
    let separator = workspace.config().key_separator.as_str();
    let entries = workspace.snapshot().default_locale_leaf_entries(
        workspace.config().default_locale.as_str(),
    );
    let ghost all = entries.deep_view();
    assert(all.len() == entries@.len());
    let mut found: Vec<Finding> = Vec::new();
    assert(found.deep_view() =~= Seq::<FindingView>::empty());
    let mut n: usize = 0;
    while n < entries.len()
        invariant
            n <= entries@.len(),
            view == workspace.deep_view(),
            separator@ == view.config.key_separator,
            all == entries.deep_view(),
            found.deep_view() == unused_findings(view, all, n as int),
        decreases entries@.len() - n,
    {
        let entry = entries[n];
        assert(all[n as int] == entry.deep_view());
        if !workspace.snapshot().is_leaf_entry_used(entry, separator) {
            if let Some(location) = position::location(
                workspace.snapshot(),
                entry.uri.as_str(),
                &entry.key_range,
            ) {
                let ghost before = found.deep_view();
                let message = about_key(entry.key.as_str(), "\" seems unused");
                let finding = warn(entry.uri.as_str(), location.range, message, true);
                found.push(finding);
                assert(found.deep_view() =~= before.push(finding.deep_view()));
            }
        }
        n += 1;
    }
    found
}

/// All that is to be shown in the files of a workspace.
pub fn find_all(workspace: &WorkspaceIndex) -> (found: Vec<Finding>)
    ensures
        found.deep_view() == findings(workspace.deep_view()),
{
    let mut found = find_ignored(workspace);
    let ghost first = found.deep_view();
    if workspace.preferences().show_unused_keys {
        let mut more = find_unused(workspace);
        let ghost second = more.deep_view();
        found.append(&mut more);
        assert(found.deep_view() =~= first + second);
    } else {
        assert(first + Seq::<FindingView>::empty() =~= first);
    }
    found
}

/// What is to be shown in one file.
fn find_shown(found: &[Finding], uri: &str) -> (shown: Vec<Diagnostic>)
    ensures
        shown.deep_view() == shown_in(found.deep_view(), uri@),
{
    let ghost all = found.deep_view();
    let ghost keep = |finding: FindingView| finding.uri == uri@;
    let ghost take = |finding: FindingView| finding.diagnostic;
    let mut shown: Vec<Diagnostic> = Vec::new();
    assert(all.take(0) =~= Seq::<FindingView>::empty());
    assert(shown.deep_view() =~= sort::kept(all.take(0), keep).map_values(take));
    let mut n: usize = 0;
    while n < found.len()
        invariant
            n <= found@.len(),
            all == found.deep_view(),
            keep == (|finding: FindingView| finding.uri == uri@),
            take == (|finding: FindingView| finding.diagnostic),
            shown.deep_view() == sort::kept(all.take(n as int), keep).map_values(take),
        decreases found@.len() - n,
    {
        assert(all[n as int] == found@[n as int].deep_view());
        assert(all.take(n + 1) =~= all.take(n as int).push(all[n as int]));
        proof {
            sort::lemma_kept_push(all.take(n as int), all[n as int], keep);
        }
        if text::same(found[n].uri.as_str(), uri) {
            let ghost before = shown.deep_view();
            shown.push(found[n].diagnostic.clone());
            assert(shown.deep_view() =~= before.push(all[n as int].diagnostic));
            assert(shown.deep_view() =~= sort::kept(all.take(n + 1), keep).map_values(take));
        }
        n += 1;
    }
    assert(all.take(n as int) =~= all);
    shown
}

/// Distinct URIs in order.
fn order_uris(uris: Vec<String>) -> (ordered: Vec<String>)
    ensures
        ordered.deep_view() == sort::sorted::<String>(
            text::distinct(uris.deep_view(), uris.deep_view().len() as int),
        ),
{
    assert(uris.deep_view().len() == uris@.len());
    sort::sort(text::keep_distinct(&uris))
}

/// The files with something to show and those told of before, by URI.
fn list_news(found: &[Finding], inside: Vec<String>) -> (uris: Vec<String>)
    ensures
        uris.deep_view() == files_to_tell(found.deep_view(), inside.deep_view()),
{
    let ghost all = found.deep_view();
    let mut names: Vec<String> = Vec::new();
    let ghost whole = all.map_values(|finding: FindingView| finding.uri);
    assert(names.deep_view() =~= whole.take(0));
    let mut n: usize = 0;
    while n < found.len()
        invariant
            n <= found@.len(),
            all == found.deep_view(),
            whole == all.map_values(|finding: FindingView| finding.uri),
            names.deep_view() == whole.take(n as int),
        decreases found@.len() - n,
    {
        assert(all[n as int] == found@[n as int].deep_view());
        let ghost before = names.deep_view();
        names.push(found[n].uri.clone());
        assert(names.deep_view() =~= before.push(whole[n as int]));
        assert(whole.take(n + 1) =~= before.push(whole[n as int]));
        n += 1;
    }
    assert(whole.take(n as int) =~= whole);
    let mut more = inside;
    let ghost second = more.deep_view();
    names.append(&mut more);
    assert(names.deep_view() =~= whole + second);
    order_uris(names)
}

/// What an editor is to be told of files, given their paths, as far as it changed.
fn announce_all(
    found: &[Finding],
    uris: &[String],
    paths: &[Option<String>],
    cache: &mut DiagnosticCache,
) -> (told_now: Vec<FileDiagnostics>)
    ensures
        told_now.deep_view() == announced(
            found.deep_view(),
            old(cache).deep_view(),
            uris.deep_view(),
            paths.deep_view(),
            uris@.len() as int,
        ),
        final(cache).deep_view() == cache_after(
            found.deep_view(),
            old(cache).deep_view(),
            uris.deep_view(),
            paths.deep_view(),
            uris@.len() as int,
        ),
{
    let ghost all = found.deep_view();
    let ghost first = cache.deep_view();
    let ghost order = uris.deep_view();
    let ghost places = paths.deep_view();
    let mut told_now: Vec<FileDiagnostics> = Vec::new();
    assert(told_now.deep_view() =~= Seq::<FileDiagnosticsView>::empty());
    let mut m: usize = 0;
    while m < uris.len()
        invariant
            m <= uris@.len(),
            all == found.deep_view(),
            order == uris.deep_view(),
            places == paths.deep_view(),
            told_now.deep_view() == announced(all, first, order, places, m as int),
            cache.deep_view() == cache_after(all, first, order, places, m as int),
        decreases uris@.len() - m,
    {
        assert(order[m as int] == uris@[m as int]@);
        let uri = uris[m].as_str();
        let diagnostics = find_shown(found, uri);
        if !cache.knows(uri, &diagnostics) {
            let ghost before = told_now.deep_view();
            let copy = copy_diagnostics(&diagnostics);
            let path = if m < paths.len() {
                assert(places[m as int] == paths@[m as int].deep_view());
                text::copy(&paths[m])
            } else {
                None
            };
            assert(path.deep_view() == path_at(places, m as int));
            cache.tell(FileDiagnostics { uri: uri.to_owned(), diagnostics: copy }, path);
            let file = FileDiagnostics { uri: uri.to_owned(), diagnostics };
            told_now.push(file);
            assert(told_now.deep_view() =~= before.push(file.deep_view()));
        }
        m += 1;
    }
    told_now
}

/// What an editor is to be told of the files of a workspace, as far as it changed, given the paths
/// of the files to tell of.
pub fn announce(
    workspace: &WorkspaceIndex,
    cache: &mut DiagnosticCache,
    paths: &[Option<String>],
) -> (told_now: Vec<FileDiagnostics>)
    ensures
        tells(
            workspace.deep_view(),
            paths.deep_view(),
            old(cache).deep_view(),
            told_now.deep_view(),
            final(cache).deep_view(),
        ),
{
    let found = find_all(workspace);
    let uris = list_news(&found, cache.inside(workspace.root(), workspace.platform()));
    assert(uris.deep_view().len() == uris@.len());
    announce_all(&found, &uris, paths, cache)
}

/// What an editor is to be told of the files of a workspace, as far as it changed.
pub fn diagnostic_notifications(workspace: &WorkspaceIndex, cache: &mut DiagnosticCache) -> (told_now:
    Vec<FileDiagnostics>)
    ensures
        exists|paths: Seq<Option<Seq<char>>>|
            urls::are_paths(news_of(workspace.deep_view(), old(cache).deep_view()), paths)
                && #[trigger] tells(
                workspace.deep_view(),
                paths,
                old(cache).deep_view(),
                told_now.deep_view(),
                final(cache).deep_view(),
            ),
{
    let found = find_all(workspace);
    let uris = list_news(&found, cache.inside(workspace.root(), workspace.platform()));
    assert(uris.deep_view().len() == uris@.len());
    let paths = urls::find_paths(&uris);
    let told_now = announce_all(&found, &uris, &paths, cache);
    assert(tells(
        workspace.deep_view(),
        paths.deep_view(),
        old(cache).deep_view(),
        told_now.deep_view(),
        cache.deep_view(),
    ));
    told_now
}

/// What an editor is to be told when a workspace goes: nothing is shown any more.
pub fn clear_diagnostics(workspace: &WorkspaceIndex, cache: &mut DiagnosticCache) -> (uris: Vec<
    String,
>)
    ensures
        uris.deep_view() == files_to_clear(workspace.deep_view(), old(cache).deep_view()),
        final(cache).deep_view() == cache_without(
            old(cache).deep_view(),
            uris.deep_view(),
            uris.deep_view().len() as int,
        ),
{
    let ghost first = cache.deep_view();
    let entries = workspace.snapshot().default_locale_leaf_entries(
        workspace.config().default_locale.as_str(),
    );
    let ghost all = entries.deep_view();
    let ghost whole = all.map_values(|entry: dictionary::EntryView| entry.uri);
    let mut names: Vec<String> = Vec::new();
    assert(names.deep_view() =~= whole.take(0));
    let mut n: usize = 0;
    while n < entries.len()
        invariant
            n <= entries@.len(),
            all == entries.deep_view(),
            whole == all.map_values(|entry: dictionary::EntryView| entry.uri),
            names.deep_view() == whole.take(n as int),
        decreases entries@.len() - n,
    {
        assert(all[n as int] == entries@[n as int].deep_view());
        let ghost before = names.deep_view();
        names.push(entries[n].uri.clone());
        assert(names.deep_view() =~= before.push(whole[n as int]));
        assert(whole.take(n + 1) =~= before.push(whole[n as int]));
        n += 1;
    }
    assert(whole.take(n as int) =~= whole);
    let mut more = cache.inside(workspace.root(), workspace.platform());
    let ghost second = more.deep_view();
    names.append(&mut more);
    assert(names.deep_view() =~= whole + second);
    let uris = order_uris(names);
    let ghost order = uris.deep_view();
    assert(order.len() == uris@.len());
    let mut m: usize = 0;
    while m < uris.len()
        invariant
            m <= uris@.len(),
            order == uris.deep_view(),
            cache.deep_view() == cache_without(first, order, m as int),
        decreases uris@.len() - m,
    {
        assert(order[m as int] == uris@[m as int]@);
        cache.forget(uris[m].as_str());
        m += 1;
    }
    uris
}

/// A place from one as a place from zero.
fn count_from_zero(place: Option<usize>) -> (place_from_zero: u32)
    ensures
        place_from_zero == place_before(place),
{
    match place {
        None => 0,
        Some(place) => if place == 0 {
            0
        } else {
            #[verifier::truncate]
            ((place - 1) as u32)
        },
    }
}

/// The error that is shown in a configuration file.
fn describe_config_error(error: &ConfigError, config_path: &str) -> (diagnostic: Diagnostic)
    ensures
        diagnostic.deep_view() == config_diagnostic(error.deep_view(), config_path@),
{
    let found = WorkspaceIssue::from_config_error(error, config_path);
    let line: u32 = count_from_zero(found.line);
    let character: u32 = count_from_zero(found.column);
    let after: u32 = if character < u32::MAX {
        character + 1
    } else {
        character
    };
    Diagnostic {
        range: Range {
            start: Position { line, character },
            end: Position { line, character: after },
        },
        severity: Severity::Error,
        code: Some(found.code.to_owned()),
        message: found.summary,
        unnecessary: false,
    }
}

/// What an editor is to be told of the configuration file at `config_path` with an error, unless it
/// knows.
pub fn publish_config_diagnostic(
    uri: &str,
    config_path: &str,
    error: &ConfigError,
    cache: &mut DiagnosticCache,
) -> (told_now: Option<FileDiagnostics>)
    ensures
        ({
            let shown = seq![config_diagnostic(error.deep_view(), config_path@)];
            let file = FileDiagnosticsView { uri: uri@, diagnostics: shown };
            if known(old(cache).deep_view(), uri@) == Some(shown) {
                told_now is None && final(cache).deep_view() == old(cache).deep_view()
            } else {
                told_now.deep_view() == Some(file) && final(cache).deep_view() == told(
                    old(cache).deep_view(),
                    file,
                    Some(config_path@),
                )
            }
        }),
{
    let mut diagnostics: Vec<Diagnostic> = Vec::new();
    diagnostics.push(describe_config_error(error, config_path));
    let ghost shown = seq![config_diagnostic(error.deep_view(), config_path@)];
    assert(diagnostics.deep_view() =~= shown);
    if cache.knows(uri, &diagnostics) {
        return None;
    }
    let copy = copy_diagnostics(&diagnostics);
    cache.tell(
        FileDiagnostics { uri: uri.to_owned(), diagnostics: copy },
        Some(config_path.to_owned()),
    );
    Some(FileDiagnostics { uri: uri.to_owned(), diagnostics })
}

/// What an editor is to be told of a file in which nothing is shown any more, unless nothing was.
pub fn clear_uri_diagnostic(uri: &str, cache: &mut DiagnosticCache) -> (told_now: Option<
    FileDiagnostics,
>)
    ensures
        final(cache).deep_view() == forgotten(old(cache).deep_view(), uri@),
        told_now.deep_view() == if known(old(cache).deep_view(), uri@) is Some {
            Some(FileDiagnosticsView { uri: uri@, diagnostics: Seq::empty() })
        } else {
            None
        },
{
    if cache.forget(uri) {
        let file = FileDiagnostics { uri: uri.to_owned(), diagnostics: Vec::new() };
        assert(file.diagnostics.deep_view() =~= Seq::<DiagnosticView>::empty());
        Some(file)
    } else {
        None
    }
}

/// A diagnostic as it is logged.
fn write_diagnostic(diagnostic: &Diagnostic) -> (text: String)
    ensures
        text@ == diagnostic_text(diagnostic.deep_view()),
{
    let range = diagnostic.range;
    let mut text = chars::decimal_text(range.start.line as u64, 0);
    text.append(":");
    text.append(chars::decimal_text(range.start.character as u64, 0).as_str());
    text.append("-");
    text.append(chars::decimal_text(range.end.line as u64, 0).as_str());
    text.append(":");
    text.append(chars::decimal_text(range.end.character as u64, 0).as_str());
    text.append(" ");
    text.append(diagnostic.message.as_str());
    text
}

/// What is logged when an editor is told of a file, by the process of this number.
pub fn diagnostic_trace(process: u32, file: &FileDiagnostics) -> (text: String)
    ensures
        text@ == trace_text(process, file.deep_view()),
{
    let ghost all = file.diagnostics.deep_view();
    let ghost whole = all.map_values(|diagnostic: DiagnosticView| diagnostic_text(diagnostic));
    assert(all.len() == file.diagnostics@.len());
    let mut lines: Vec<String> = Vec::new();
    assert(lines.deep_view() =~= whole.take(0));
    let count: usize = file.diagnostics.len();
    let mut n: usize = 0;
    while n < count
        invariant
            n <= count,
            count == file.diagnostics@.len(),
            all == file.diagnostics.deep_view(),
            whole == all.map_values(|diagnostic: DiagnosticView| diagnostic_text(diagnostic)),
            lines.deep_view() == whole.take(n as int),
        decreases count - n,
    {
        assert(all[n as int] == file.diagnostics@[n as int].deep_view());
        let ghost before = lines.deep_view();
        lines.push(write_diagnostic(&file.diagnostics[n]));
        assert(lines.deep_view() =~= before.push(whole[n as int]));
        assert(whole.take(n + 1) =~= before.push(whole[n as int]));
        n += 1;
    }
    assert(whole.take(n as int) =~= whole);
    let mut text = "LocaleBreeze diagnostics pid=".to_owned();
    text.append(chars::decimal_text(process as u64, 0).as_str());
    text.append(" uri=");
    text.append(file.uri.as_str());
    text.append(" count=");
    text.append(chars::decimal_text(count as u64, 0).as_str());
    text.append(" [");
    text.append(search::join(&lines, " | ").as_str());
    text.append("]");
    text
}

} // verus!
