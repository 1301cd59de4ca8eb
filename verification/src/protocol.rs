//! What the server and an editor say to each other.
use crate::diagnostics;
use crate::diagnostics::{DiagnosticCache, FileDiagnostics};
use crate::issue;
use crate::issue::WorkspaceIssue;
use crate::status;
use crate::status::WorkspaceStatus;
use crate::text;
use crate::urls;
use crate::workspace;
use crate::workspace::WorkspaceIndex;
use vstd::prelude::*;

verus! {

/// How much a line of the log matters.
#[derive(Clone, Copy, Debug, PartialEq, Eq, Structural)]
pub enum LogLevel {
    Error,
    Warning,
    Info,
}

/// What the server tells an editor.
#[derive(Debug)]
pub enum Outgoing {
    Diagnostics(FileDiagnostics),
    Issue(WorkspaceIssue),
    Status(WorkspaceStatus),
    Log(LogLevel, String),
}

/// What an `Outgoing` holds.
pub enum OutgoingView {
    Diagnostics(diagnostics::FileDiagnosticsView),
    Issue(issue::WorkspaceIssueView),
    Status(status::StatusView),
    Log(LogLevel, Seq<char>),
}

impl DeepView for Outgoing {
    type V = OutgoingView;

    open spec fn deep_view(&self) -> OutgoingView {
        match self {
            Outgoing::Diagnostics(file) => OutgoingView::Diagnostics(file.deep_view()),
            Outgoing::Issue(issue) => OutgoingView::Issue(issue.deep_view()),
            Outgoing::Status(status) => OutgoingView::Status(status.deep_view()),
            Outgoing::Log(level, text) => OutgoingView::Log(*level, text@),
        }
    }
}

/// What an editor asks for.
#[derive(Clone, Copy, Debug, PartialEq, Eq, Structural)]
pub enum RequestKind {
    Completion,
    Definition,
    Hover,
    References,
    Command,
    Unknown,
}

/// The request that a method stands for.
pub open spec fn request_of(method: Seq<char>) -> RequestKind {
    if method == "textDocument/completion"@ {
        RequestKind::Completion
    } else if method == "textDocument/definition"@ {
        RequestKind::Definition
    } else if method == "textDocument/hover"@ {
        RequestKind::Hover
    } else if method == "textDocument/references"@ {
        RequestKind::References
    } else if method == "workspace/executeCommand"@ {
        RequestKind::Command
    } else {
        RequestKind::Unknown
    }
}

/// The request that a method stands for.
pub fn request_kind(method: &str) -> (kind: RequestKind)
    ensures
        kind == request_of(method@),
{
    if text::same(method, "textDocument/completion") {
        RequestKind::Completion
    } else if text::same(method, "textDocument/definition") {
        RequestKind::Definition
    } else if text::same(method, "textDocument/hover") {
        RequestKind::Hover
    } else if text::same(method, "textDocument/references") {
        RequestKind::References
    } else if text::same(method, "workspace/executeCommand") {
        RequestKind::Command
    } else {
        RequestKind::Unknown
    }
}

/// The answer to a request that is not known.
pub fn unsupported(method: &str) -> (message: String)
    ensures
        message@ == "unsupported request: "@ + method@,
{
    let mut message = "unsupported request: ".to_owned();
    message.append(method);
    message
}

/// What an editor lets the server do.
#[derive(Clone, Copy, Debug, PartialEq, Eq, Structural)]
pub enum CommandKind {
    ResolveKey,
    RefreshDocument,
    DocumentKeys,
    PrepareAddKey,
    Unknown,
}

/// The command that a name stands for.
pub open spec fn command_of(name: Seq<char>) -> CommandKind {
    if name == "localeBreeze.resolveFullKey"@ {
        CommandKind::ResolveKey
    } else if name == "localeBreeze.refreshDocument"@ {
        CommandKind::RefreshDocument
    } else if name == "localeBreeze.documentKeys"@ {
        CommandKind::DocumentKeys
    } else if name == "localeBreeze.prepareAddKey"@ {
        CommandKind::PrepareAddKey
    } else {
        CommandKind::Unknown
    }
}

/// The command that a name stands for.
pub fn command_kind(name: &str) -> (kind: CommandKind)
    ensures
        kind == command_of(name@),
{
    if text::same(name, "localeBreeze.resolveFullKey") {
        CommandKind::ResolveKey
    } else if text::same(name, "localeBreeze.refreshDocument") {
        CommandKind::RefreshDocument
    } else if text::same(name, "localeBreeze.documentKeys") {
        CommandKind::DocumentKeys
    } else if text::same(name, "localeBreeze.prepareAddKey") {
        CommandKind::PrepareAddKey
    } else {
        CommandKind::Unknown
    }
}

/// What an editor lets the server know.
#[derive(Clone, Copy, Debug, PartialEq, Eq, Structural)]
pub enum NotificationKind {
    Opened,
    Changed,
    Closed,
    Saved,
    FoldersChanged,
    ConfigurationChanged,
    FilesChanged,
    Unknown,
}

/// The notification that a method stands for.
pub open spec fn notification_of(method: Seq<char>) -> NotificationKind {
    if method == "textDocument/didOpen"@ {
        NotificationKind::Opened
    } else if method == "textDocument/didChange"@ {
        NotificationKind::Changed
    } else if method == "textDocument/didClose"@ {
        NotificationKind::Closed
    } else if method == "textDocument/didSave"@ {
        NotificationKind::Saved
    } else if method == "workspace/didChangeWorkspaceFolders"@ {
        NotificationKind::FoldersChanged
    } else if method == "workspace/didChangeConfiguration"@ {
        NotificationKind::ConfigurationChanged
    } else if method == "workspace/didChangeWatchedFiles"@ {
        NotificationKind::FilesChanged
    } else {
        NotificationKind::Unknown
    }
}

/// The notification that a method stands for.
pub fn notification_kind(method: &str) -> (kind: NotificationKind)
    ensures
        kind == notification_of(method@),
{
    if text::same(method, "textDocument/didOpen") {
        NotificationKind::Opened
    } else if text::same(method, "textDocument/didChange") {
        NotificationKind::Changed
    } else if text::same(method, "textDocument/didClose") {
        NotificationKind::Closed
    } else if text::same(method, "textDocument/didSave") {
        NotificationKind::Saved
    } else if text::same(method, "workspace/didChangeWorkspaceFolders") {
        NotificationKind::FoldersChanged
    } else if text::same(method, "workspace/didChangeConfiguration") {
        NotificationKind::ConfigurationChanged
    } else if text::same(method, "workspace/didChangeWatchedFiles") {
        NotificationKind::FilesChanged
    } else {
        NotificationKind::Unknown
    }
}

/// What is sent for the first `n` files: a line of the log, then what is shown in the file.
pub open spec fn traced(files: Seq<diagnostics::FileDiagnosticsView>, process: u32, n: int) -> Seq<
    OutgoingView,
>
    decreases n,
{
    if n <= 0 {
        Seq::empty()
    } else {
        traced(files, process, n - 1).push(
            OutgoingView::Log(LogLevel::Info, diagnostics::trace_text(process, files[n - 1])),
        ).push(OutgoingView::Diagnostics(files[n - 1]))
    }
}

/// What is sent when a workspace changed, given what is told of its files and their paths.
pub open spec fn report_of(
    workspace: workspace::WorkspaceView,
    config_path: Seq<char>,
    process: u32,
    told: Seq<diagnostics::FileDiagnosticsView>,
    paths: Seq<Option<Seq<char>>>,
) -> Seq<OutgoingView> {
    traced(told, process, told.len() as int).push(
        OutgoingView::Status(status::status_of(workspace, config_path, paths)),
    )
}

/// Whether `sent` tells an editor that knew `before` of a workspace, so that it then knows `after`,
/// for the paths that the URIs of files stand for.
pub open spec fn reports(
    workspace: workspace::WorkspaceView,
    config_path: Seq<char>,
    process: u32,
    before: Seq<diagnostics::KnownView>,
    sent: Seq<OutgoingView>,
    after: Seq<diagnostics::KnownView>,
) -> bool {
    exists|
        places: Seq<Option<Seq<char>>>,
        told: Seq<diagnostics::FileDiagnosticsView>,
        paths: Seq<Option<Seq<char>>>,
    |
        #![trigger diagnostics::tells(workspace, places, before, told, after), report_of(
            workspace,
            config_path,
            process,
            told,
            paths,
        )]
        urls::are_paths(diagnostics::news_of(workspace, before), places) && diagnostics::tells(
            workspace,
            places,
            before,
            told,
            after,
        ) && status::are_located(workspace.snapshot.files, paths) && sent == report_of(
            workspace,
            config_path,
            process,
            told,
            paths,
        )
}

/// Sends what is told of files.
pub fn trace_files(told: Vec<FileDiagnostics>, process: u32) -> (sent: Vec<Outgoing>)
    ensures
        sent.deep_view() == traced(told.deep_view(), process, told@.len() as int),
{
    let ghost all = told.deep_view();
    let count: usize = told.len();
    let mut rest = told;
    let mut sent: Vec<Outgoing> = Vec::new();
    assert(sent.deep_view() =~= Seq::<OutgoingView>::empty());
    assert(all.skip(0) =~= all);
    let mut n: usize = 0;
    while n < count
        invariant
            n <= count,
            count == all.len(),
            rest.deep_view() == all.skip(n as int),
            sent.deep_view() == traced(all, process, n as int),
        decreases count - n,
    {
        assert(rest.deep_view().len() == rest@.len());
        let ghost left = rest.deep_view();
        let file = rest.remove(0);
        assert(left[0] == file.deep_view());
        assert(rest.deep_view() =~= left.skip(1));
        assert(left.skip(1) =~= all.skip(n + 1));
        let ghost before = sent.deep_view();
        let line = Outgoing::Log(LogLevel::Info, diagnostics::diagnostic_trace(process, &file));
        let shown = Outgoing::Diagnostics(file);
        sent.push(line);
        sent.push(shown);
        assert(sent.deep_view() =~= before.push(line.deep_view()).push(shown.deep_view()));
        n += 1;
    }
    sent
}

/// What is sent when a workspace changed, given what is told of its files and their paths.
fn write_report(
    workspace: &WorkspaceIndex,
    config_path: &str,
    process: u32,
    told: Vec<FileDiagnostics>,
    paths: &[Option<String>],
) -> (sent: Vec<Outgoing>)
    ensures
        sent.deep_view() == report_of(
            workspace.deep_view(),
            config_path@,
            process,
            told.deep_view(),
            paths.deep_view(),
        ),
{
    assert(told.deep_view().len() == told@.len());
    let mut sent = trace_files(told, process);
    let ghost before = sent.deep_view();
    let last = Outgoing::Status(WorkspaceStatus::with_paths(workspace, config_path, paths));
    sent.push(last);
    assert(sent.deep_view() =~= before.push(last.deep_view()));
    sent
}

/// What is sent when a workspace changed, given the paths of the files to tell of and of all files.
pub fn report_located(
    workspace: &WorkspaceIndex,
    config_path: &str,
    process: u32,
    places: &[Option<String>],
    paths: &[Option<String>],
    cache: &mut DiagnosticCache,
) -> (sent: Vec<Outgoing>)
    ensures
        ({
            let uris = diagnostics::news_of(workspace.deep_view(), old(cache).deep_view());
            let told = diagnostics::announced(
                diagnostics::findings(workspace.deep_view()),
                old(cache).deep_view(),
                uris,
                places.deep_view(),
                uris.len() as int,
            );
            &&& diagnostics::tells(
                workspace.deep_view(),
                places.deep_view(),
                old(cache).deep_view(),
                told,
                final(cache).deep_view(),
            )
            &&& sent.deep_view() == report_of(
                workspace.deep_view(),
                config_path@,
                process,
                told,
                paths.deep_view(),
            )
        }),
{
    let told = diagnostics::announce(workspace, cache, places);
    write_report(workspace, config_path, process, told, paths)
}

/// What is sent when a workspace changed.
pub fn report(
    workspace: &WorkspaceIndex,
    config_path: &str,
    process: u32,
    cache: &mut DiagnosticCache,
) -> (sent: Vec<Outgoing>)
    ensures
        reports(
            workspace.deep_view(),
            config_path@,
            process,
            old(cache).deep_view(),
            sent.deep_view(),
            final(cache).deep_view(),
        ),
{
    let told = diagnostics::diagnostic_notifications(workspace, cache);
    let files = workspace.snapshot().files();
    assert(files.deep_view().len() == files@.len());
    let paths = status::paths_of(files);
    assert(paths.deep_view().len() == paths@.len());
    write_report(workspace, config_path, process, told, &paths)
}

} // verus!
