//! The order in which completions are listed, which files are source code, and which loads fail.
use crate::chars;
use crate::commands;
use crate::completion;
use crate::config;
use crate::json;
use crate::path;
use crate::path::Platform;
use crate::search;
use crate::syntax;
use crate::text;
use crate::workspace;
use crate::workspace::WorkspacePreferences;
use vstd::prelude::*;

verus! {

/// Ten to the power of `width`.
pub open spec fn tens(width: nat) -> nat
    decreases width,
{
    if width == 0 {
        1
    } else {
        10 * tens((width - 1) as nat)
    }
}

proof fn lemma_digit(m: int, n: int)
    requires
        0 <= m < n < 10,
    ensures
        chars::digit(m) < chars::digit(n),
{
}

proof fn lemma_decimal(n: nat, width: nat)
    requires
        width > 0,
        n < tens(width),
    ensures
        chars::decimal(n, width).len() == width,
    decreases width,
{
    if width == 1 {
        assert(tens(0) == 1);
        assert(tens(1) == 10 * tens(0));
    } else {
        let less = (width - 1) as nat;
        assert(tens(width) == 10 * tens(less));
        assert(n / 10 < tens(less));
        lemma_decimal(n / 10, less);
        assert(chars::decimal(n, width) == chars::decimal(n / 10, less).push(
            chars::digit((n % 10) as int),
        ));
    }
}

proof fn lemma_smaller_first(m: nat, n: nat, width: nat)
    requires
        width > 0,
        m < n < tens(width),
    ensures
        text::precedes(chars::decimal(m, width), chars::decimal(n, width)),
    decreases width,
{
    let a = chars::decimal(m, width);
    let b = chars::decimal(n, width);
    lemma_decimal(m, width);
    lemma_decimal(n, width);
    if width == 1 {
        assert(tens(0) == 1);
        assert(tens(1) == 10 * tens(0));
        lemma_digit(m as int, n as int);
        assert(a.take(0) =~= b.take(0));
        assert(text::smaller_at(a, b, 0));
    } else {
        let less = (width - 1) as nat;
        assert(tens(width) == 10 * tens(less));
        let front_a = chars::decimal(m / 10, less);
        let front_b = chars::decimal(n / 10, less);
        lemma_decimal(m / 10, less);
        lemma_decimal(n / 10, less);
        assert(a == front_a.push(chars::digit((m % 10) as int)));
        assert(b == front_b.push(chars::digit((n % 10) as int)));
        if m / 10 < n / 10 {
            lemma_smaller_first(m / 10, n / 10, less);
            let k = choose|k: int| text::smaller_at(front_a, front_b, k);
            assert(k < less);
            assert(a.take(k) =~= front_a.take(k));
            assert(b.take(k) =~= front_b.take(k));
            assert(text::smaller_at(a, b, k));
        } else {
            assert(m / 10 == n / 10);
            lemma_digit((m % 10) as int, (n % 10) as int);
            assert(a.take(less as int) =~= front_a);
            assert(b.take(less as int) =~= front_b);
            assert(text::smaller_at(a, b, less as int));
        }
    }
}

/// A completion that answers better is listed before one that answers worse.
pub proof fn better_completions_are_listed_first(
    better: completion::CandidateView,
    worse: completion::CandidateView,
)
    requires
        -80000 <= worse.score < better.score <= 10000,
    ensures
        text::precedes(commands::item_for(better).sort_text, commands::item_for(worse).sort_text),
{
    let m = (10000 - better.score) as nat;
    let n = (10000 - worse.score) as nat;
    assert(tens(5) == 100000) by {
        reveal_with_fuel(tens, 6);
    }
    lemma_smaller_first(m, n, 5);
    let lead = "00000-"@;
    let a = chars::decimal(m, 5);
    let b = chars::decimal(n, 5);
    let k = choose|k: int| text::smaller_at(a, b, k);
    let width = lead.len() as int;
    assert((lead + a).take(width + k) =~= lead + a.take(k));
    assert((lead + b).take(width + k) =~= lead + b.take(k));
    lemma_decimal(m, 5);
    lemma_decimal(n, 5);
    assert(text::smaller_at(lead + a, lead + b, width + k));
}

proof fn lemma_segments_behind(lead: Seq<char>, name: Seq<char>, from: int)
    requires
        0 <= from <= lead.len(),
        !name.contains('/'),
    ensures
        search::segments_from(lead + seq!['/'] + name, seq!['/'], from) == search::segments_from(
            lead,
            seq!['/'],
            from,
        ).push(name),
    decreases lead.len() - from,
{
    let slash = seq!['/'];
    let all = lead + slash + name;
    let at = lead.len() as int;
    search::lemma_find(all, slash, from);
    search::lemma_find(lead, slash, from);
    assert forall|j: int| 0 <= j < at implies search::occurs_at(all, slash, j)
        == search::occurs_at(lead, slash, j) by {
        assert(all.subrange(j, j + 1) =~= lead.subrange(j, j + 1));
    }
    assert(all.subrange(at, at + 1) =~= slash);
    assert(search::occurs_at(all, slash, at));
    let i = search::find_from(all, slash, from)->0;
    match search::find_from(lead, slash, from) {
        Some(d) => {
            assert(search::occurs_at(all, slash, d));
            if i < d {
                assert(search::occurs_at(lead, slash, i));
            }
            assert(i == d);
            lemma_segments_behind(lead, name, d + 1);
            assert(all.subrange(from, d) =~= lead.subrange(from, d));
            let rest = search::segments_from(lead, slash, d + 1);
            assert(seq![lead.subrange(from, d)] + rest.push(name) =~= (seq![lead.subrange(from, d)]
                + rest).push(name));
        },
        None => {
            if i < at {
                assert(search::occurs_at(lead, slash, i));
            }
            assert(i == at);
            search::lemma_find(all, slash, at + 1);
            if let Some(j) = search::find_from(all, slash, at + 1) {
                assert(all.subrange(j, j + 1)[0] == all[j]);
                assert(name[j - at - 1] == '/');
            }
            assert(all.subrange(at + 1, all.len() as int) =~= name);
            assert(all.subrange(from, at) =~= lead.subrange(from, at));
            assert(search::segments_from(all, slash, at + 1) =~= seq![name]);
            assert(search::segments_from(all, slash, from) =~= seq![lead.subrange(from, at)]
                + seq![name]);
        },
    }
}

proof fn lemma_components_front(parts: Seq<Seq<char>>, name: Seq<char>, n: int)
    requires
        0 <= n <= parts.len(),
    ensures
        path::components_of(parts.push(name), n) == path::components_of(parts, n),
    decreases n,
{
    if n > 0 {
        lemma_components_front(parts, name, n - 1);
    }
}

/// Whether a text is a name of a file: not empty, without a slash, and not `.` or `..`.
pub open spec fn is_file_name(name: Seq<char>) -> bool {
    name.len() > 0 && !name.contains('/') && name != seq!['.'] && name != seq!['.', '.']
}

/// A name behind a directory is one more component.
pub proof fn names_are_components(directory: Seq<char>, name: Seq<char>)
    requires
        directory.len() > 0,
        is_file_name(name),
    ensures
        path::components(directory + seq!['/'] + name, Platform::Posix) == path::components(
            directory,
            Platform::Posix,
        ).push(name),
{
    let slash = seq!['/'];
    let all = directory + slash + name;
    let parts = search::segments(directory, slash);
    lemma_segments_behind(directory, name, 0);
    assert(search::segments(all, slash) == parts.push(name));
    lemma_components_front(parts, name, parts.len() as int);
    assert(parts.len() > 0) by {
        crate::laws::lemma_segments_joined(directory, slash, 0);
    }
    assert(all.skip(0) =~= all);
    assert(directory.skip(0) =~= directory);
    assert(all.subrange(0, 1) =~= directory.subrange(0, 1));
    let rest = path::components_of(parts, parts.len() as int);
    assert(path::components_of(parts.push(name), (parts.len() + 1) as int) == rest.push(name));
    assert(seq![slash] + rest.push(name) =~= (seq![slash] + rest).push(name));
}

/// A file lies in its directory, and in whatever the directory lies in; a directory does not lie in
/// what is in it.
pub proof fn files_lie_in_their_directory(
    directory: Seq<char>,
    name: Seq<char>,
    root: Seq<char>,
)
    requires
        directory.len() > 0,
        is_file_name(name),
    ensures
        path::is_within(directory + seq!['/'] + name, directory, Platform::Posix),
        !path::is_within(directory, directory + seq!['/'] + name, Platform::Posix),
        path::is_within(directory, root, Platform::Posix) ==> path::is_within(
            directory + seq!['/'] + name,
            root,
            Platform::Posix,
        ),
{
    names_are_components(directory, name);
    let parts = path::components(directory, Platform::Posix);
    let all = parts.push(name);
    assert(all.take(parts.len() as int) =~= parts);
    if path::is_within(directory, root, Platform::Posix) {
        let top = path::components(root, Platform::Posix);
        assert(all.take(top.len() as int) =~= parts.take(top.len() as int));
    }
}

/// A file is source code by its extension: `js`, `jsx`, `ts` or `tsx` behind the last dot of its
/// name, with something before it.
pub proof fn source_code_is_told_by_its_extension(
    directory: Seq<char>,
    stem: Seq<char>,
    extension: Seq<char>,
)
    requires
        directory.len() > 0,
        is_file_name(stem + seq!['.'] + extension),
        !extension.contains('.'),
    ensures
        workspace::is_source(
            directory + seq!['/'] + (stem + seq!['.'] + extension),
            Platform::Posix,
        ) <==> stem.len() > 0 && (extension == "js"@ || extension == "jsx"@ || extension == "ts"@
            || extension == "tsx"@),
{
    let dot = seq!['.'];
    let name = stem + dot + extension;
    names_are_components(directory, name);
    let at = stem.len() as int;
    assert(name[at] == '.');
    assert(name.contains('.'));
    let components = path::components(directory, Platform::Posix).push(name);
    assert(components.last() == name);
    assert(name != seq!['/']) by {
        if name == seq!['/'] {
            assert(name[0] == '/');
        }
    }
    search::lemma_rfind(name, dot, name.len() as int);
    assert(name.subrange(at, at + 1) =~= dot);
    assert(search::occurs_at(name, dot, at));
    let i = search::rfind_from(name, dot, name.len() as int)->0;
    if i > at {
        assert(name.subrange(i, i + 1)[0] == name[i]);
        assert(extension[i - at - 1] == '.');
    }
    assert(i == at);
    assert(name.skip(at + 1) =~= extension);
}

/// Whether a file on disk is a dictionary that cannot be read or is no JSON.
pub open spec fn is_broken(held: workspace::WorkspaceView, file: workspace::DiskView) -> bool {
    held.identity(file.path) is Some && match file.text {
        Ok(text) => json::fault(text) is Some || syntax::json_tree(text) is None,
        Err(_) => true,
    }
}

proof fn lemma_issue(
    held: workspace::WorkspaceView,
    walk: Seq<workspace::WalkedView>,
    from: int,
    n: int,
)
    requires
        0 <= from <= n < walk.len(),
        forall|i: int|
            from <= i <= n ==> match #[trigger] walk[i] {
                workspace::WalkedView::File(file) => file.uri is Some,
                workspace::WalkedView::Fault => false,
            },
        walk[n] matches workspace::WalkedView::File(file) && is_broken(held, file),
        forall|i: int|
            from <= i < n ==> (#[trigger] walk[i] matches workspace::WalkedView::File(file)
                && !is_broken(held, file)),
    ensures
        held.first_issue(walk, from) matches Some(issue) && (
        walk[n] matches workspace::WalkedView::File(file) && issue.path == file.path),
    decreases n - from,
{
    assert(walk[from] matches workspace::WalkedView::File(file) && file.uri is Some);
    if from < n {
        assert(walk[from] matches workspace::WalkedView::File(file) && !is_broken(held, file));
        lemma_issue(held, walk, from + 1, n);
    }
}

/// A workspace is not loaded where one of its dictionaries is broken, and the first of these is
/// named.
pub proof fn broken_dictionaries_are_named(
    platform: Platform,
    root: Seq<char>,
    config: config::ConfigView,
    preferences: WorkspacePreferences,
    files: Seq<workspace::DiskView>,
    walk: Seq<workspace::WalkedView>,
    n: int,
)
    requires
        config::config_fault(config) is None,
        0 <= n < walk.len(),
        forall|i: int|
            0 <= i <= n ==> match #[trigger] walk[i] {
                workspace::WalkedView::File(file) => file.uri is Some,
                workspace::WalkedView::Fault => false,
            },
        ({
            let held = workspace::fresh_workspace(platform, root, config, preferences);
            &&& walk[n] matches workspace::WalkedView::File(file) && is_broken(held, file)
            &&& forall|i: int|
                0 <= i < n ==> (#[trigger] walk[i] matches workspace::WalkedView::File(file)
                    && !is_broken(held, file))
        }),
    ensures
        workspace::load_fault(platform, root, config, preferences, files, walk) matches Some(fault)
            && (walk[n] matches workspace::WalkedView::File(file)
            && fault matches config::ConfigErrorView::InvalidDictionary { path, .. } && path
            == file.path),
{
    let held = workspace::fresh_workspace(platform, root, config, preferences);
    lemma_issue(held, walk, 0, n);
}

} // verus!
