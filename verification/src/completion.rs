//! What can be filled in where a key is being written.
use crate::chars;
use crate::chars::CharClass;
use crate::config;
use crate::config::Config;
use crate::dictionary;
use crate::dictionary::{DictionaryEntry, EntryKind};
use crate::analysis;
use crate::index;
use crate::index::IndexSnapshot;
use crate::key;
use crate::key::CanonicalKey;
use crate::search;
use crate::sort;
use crate::sort::Ranked;
use crate::source;
use crate::text;
use vstd::prelude::*;

verus! {

/// What is being written, and how far.
#[derive(Debug)]
pub enum CompletionContext {
    /// A scope.
    Scope { query: String },
    /// A whole key.
    FullKey { query: String },
    /// What follows a scope.
    ScopedKey { scope: CanonicalKey, query: String },
}

/// What a `CompletionContext` holds.
pub struct ContextView {
    pub scope: Option<Seq<char>>,
    pub objects: bool,
    pub query: Seq<char>,
}

impl DeepView for CompletionContext {
    type V = ContextView;

    open spec fn deep_view(&self) -> ContextView {
        match self {
            CompletionContext::Scope { query } => ContextView {
                scope: None,
                objects: true,
                query: query@,
            },
            CompletionContext::FullKey { query } => ContextView {
                scope: None,
                objects: false,
                query: query@,
            },
            CompletionContext::ScopedKey { scope, query } => ContextView {
                scope: Some(scope@),
                objects: false,
                query: query@,
            },
        }
    }
}

/// Something that can be filled in.
#[derive(Clone, Debug, PartialEq, Eq)]
pub struct CompletionCandidate {
    pub key: String,
    pub canonical_key: String,
    pub detail: Option<String>,
    pub score: i64,
}

/// What a `CompletionCandidate` holds.
pub struct CandidateView {
    pub key: Seq<char>,
    pub canonical_key: Seq<char>,
    pub detail: Option<Seq<char>>,
    pub score: i64,
}

impl DeepView for CompletionCandidate {
    type V = CandidateView;

    open spec fn deep_view(&self) -> CandidateView {
        CandidateView {
            key: self.key@,
            canonical_key: self.canonical_key@,
            detail: self.detail.deep_view(),
            score: self.score,
        }
    }
}

impl Ranked for CompletionCandidate {
    /// The better score comes first, then the earlier key.
    open spec fn ahead(first: CandidateView, second: CandidateView) -> bool {
        first.score > second.score || (first.score == second.score && text::precedes(
            first.key,
            second.key,
        ))
    }

    proof fn ahead_one_way(first: CandidateView, second: CandidateView) {
        text::precedes_total(first.key, second.key);
    }

    proof fn ahead_through(first: CandidateView, second: CandidateView, third: CandidateView) {
        text::precedes_total(first.key, second.key);
        text::precedes_total(second.key, third.key);
        text::precedes_total(first.key, third.key);
        if text::precedes(first.key, second.key) && text::precedes(second.key, third.key) {
            text::precedes_transitive(first.key, second.key, third.key);
        }
    }

    fn is_ahead(&self, other: &Self) -> (found: bool) {
        self.score > other.score || (self.score == other.score && text::less(
            self.key.as_str(),
            other.key.as_str(),
        ))
    }
}

/// The largest length that counts in a score.
pub const LONGEST: u64 = 0x4000_0000_0000_0000;

/// A length as it counts in a score.
pub open spec fn weight(length: nat) -> int {
    if length > LONGEST {
        LONGEST as int
    } else {
        length as int
    }
}

/// Whether a word of `text` starts at `at`.
pub open spec fn is_word_start(text: Seq<char>, at: int) -> bool {
    at == 0 || (0 < at <= text.len() && chars::belongs(text[at - 1], CharClass::WordBreak))
}

/// Whether a word of `text`, between dots, underscores and hyphens, starts with `query`.
pub open spec fn word_starts_with(text: Seq<char>, query: Seq<char>) -> bool {
    &&& chars::first_in(query, CharClass::WordBreak, 0) is None
    &&& exists|at: int| #[trigger]
        search::occurs_at(text, query, at) && is_word_start(text, at)
}

/// Where the characters of `query[n..]` end when each is found after the last from `at` on.
pub open spec fn scattered_end(text: Seq<char>, query: Seq<char>, n: int, at: int) -> Option<int>
    decreases query.len() - n,
{
    if n >= query.len() {
        Some(at)
    } else {
        match search::find_from(text, seq![query[n]], at) {
            None => None,
            Some(i) => scattered_end(text, query, n + 1, i + 1),
        }
    }
}

/// How well `insert`, found by `haystack`, answers `query`, all in lower case.
pub open spec fn score(query: Seq<char>, haystack: Seq<char>, insert: Seq<char>) -> Option<int> {
    if query.len() == 0 {
        Some(1)
    } else if insert == query {
        Some(10000)
    } else if search::starts_with(insert, query) {
        Some(9000 - weight(text::byte_len(insert)))
    } else if word_starts_with(insert, query) {
        Some(8000 - weight(text::byte_len(insert)))
    } else {
        match search::find_from(haystack, query, 0) {
            Some(i) => Some(
                7000 - weight(text::byte_len(haystack.take(i))) - weight(
                    text::byte_len(haystack),
                ) / 10,
            ),
            None => match scattered_end(haystack, query, 0, 0) {
                Some(end) => Some(5000 - weight(text::byte_len(haystack.take(end)))),
                None => None,
            },
        }
    }
}

/// The best score among the first `n` haystacks.
pub open spec fn best_score(
    query: Seq<char>,
    haystacks: Seq<Seq<char>>,
    insert: Seq<char>,
    n: int,
) -> Option<int>
    decreases n,
{
    if n <= 0 {
        None
    } else {
        let best = best_score(query, haystacks, insert, n - 1);
        match score(query, haystacks[n - 1], insert) {
            None => best,
            Some(found) => if best matches Some(other) && other > found {
                best
            } else {
                Some(found)
            },
        }
    }
}

/// Where the entries with the key of that at `i` end, searched from `j` on.
pub open spec fn group_end(entries: Seq<dictionary::EntryView>, i: int, j: int) -> int
    decreases entries.len() - j,
{
    if j < entries.len() && entries[j].key == entries[i].key {
        group_end(entries, i, j + 1)
    } else {
        j
    }
}

/// The keys of the entries from `j` on, as long as they lie below `scope`.
pub open spec fn keys_below(
    entries: Seq<dictionary::EntryView>,
    scope: Seq<char>,
    separator: Seq<char>,
    j: int,
) -> Seq<Seq<char>>
    decreases entries.len() - j,
{
    if 0 <= j < entries.len() && key::is_below(entries[j].key, scope, separator) {
        seq![text::lowercase(entries[j].key)] + keys_below(entries, scope, separator, j + 1)
    } else {
        Seq::empty()
    }
}

/// Whether one of `entries[i..j]` is of this kind.
pub open spec fn has_kind(
    entries: Seq<dictionary::EntryView>,
    i: int,
    j: int,
    kind: EntryKind,
) -> bool {
    exists|k: int| i <= k < j && (#[trigger] entries[k]).kind == kind
}

/// The translation in the first of `entries[i..j]` that is in the locale.
pub open spec fn value_in(
    entries: Seq<dictionary::EntryView>,
    i: int,
    j: int,
    locale: Seq<char>,
) -> Option<Seq<char>>
    decreases j - i,
{
    if i >= j {
        None
    } else if entries[i].locale == locale {
        entries[i].value
    } else {
        value_in(entries, i + 1, j, locale)
    }
}

/// What a key is found by: itself and what is filled in, and of a scope also the keys below it.
pub open spec fn haystacks(
    entries: Seq<dictionary::EntryView>,
    i: int,
    j: int,
    insert: Seq<char>,
    objects: bool,
    separator: Seq<char>,
) -> Seq<Seq<char>> {
    let own = seq![text::lowercase(entries[i].key), text::lowercase(insert)];
    if objects {
        own + keys_below(entries, entries[i].key, separator, j)
    } else {
        own
    }
}

/// The candidate that `entries[i..j]`, which share a key, make.
pub open spec fn candidate(
    entries: Seq<dictionary::EntryView>,
    i: int,
    j: int,
    context: ContextView,
    locale: Seq<char>,
    separator: Seq<char>,
) -> Option<CandidateView> {
    let key = entries[i].key;
    let insert = match context.scope {
        Some(scope) => key::relative_key(key, scope, separator),
        None => Some(key),
    };
    if context.objects != has_kind(entries, i, j, EntryKind::Object) || (!context.objects
        && !has_kind(entries, i, j, EntryKind::Leaf)) {
        None
    } else {
        match insert {
            None => None,
            Some(insert) => {
                let found = haystacks(entries, i, j, insert, context.objects, separator);
                match best_score(
                    text::lowercase(context.query),
                    found,
                    text::lowercase(insert),
                    found.len() as int,
                ) {
                    None => None,
                    Some(score) => Some(
                        CandidateView {
                            key: insert,
                            canonical_key: key,
                            detail: value_in(entries, i, j, locale),
                            score: score as i64,
                        },
                    ),
                }
            },
        }
    }
}

/// The candidates that the entries from `i` on make, in the order of their keys.
pub open spec fn candidates_from(
    entries: Seq<dictionary::EntryView>,
    i: int,
    context: ContextView,
    locale: Seq<char>,
    separator: Seq<char>,
) -> Seq<CandidateView>
    decreases entries.len() - i,
{
    if i >= entries.len() {
        Seq::empty()
    } else {
        proof {
            lemma_group_end(entries, i, i + 1);
        }
        let j = group_end(entries, i, i + 1);
        let first = match candidate(entries, i, j, context, locale, separator) {
            Some(found) => seq![found],
            None => Seq::empty(),
        };
        if j > i {
            first + candidates_from(entries, j, context, locale, separator)
        } else {
            first
        }
    }
}

pub proof fn lemma_group_end(entries: Seq<dictionary::EntryView>, i: int, j: int)
    requires
        j <= entries.len(),
    ensures
        j <= group_end(entries, i, j) <= entries.len(),
    decreases entries.len() - j,
{
    if j < entries.len() && entries[j].key == entries[i].key {
        lemma_group_end(entries, i, j + 1);
    }
}

/// All candidates, the best first.
pub open spec fn ranked_candidates(
    snapshot: index::SnapshotView,
    context: ContextView,
    locale: Seq<char>,
    separator: Seq<char>,
) -> Seq<CandidateView> {
    sort::sorted::<CompletionCandidate>(
        candidates_from(snapshot.entries(), 0, context, locale, separator),
    )
}

/// The function that is called where the open string before a cursor starts at `quote`.
pub open spec fn called(before: Seq<char>, quote: int) -> Option<Seq<char>> {
    let call = chars::trimmed_end(before.take(quote));
    match chars::last_in(call, CharClass::Parenthesis, call.len() as int) {
        None => None,
        Some(open) => {
            let callee = chars::trimmed_end(call.take(open));
            match chars::last_in(callee, CharClass::CalleeBreak, callee.len() as int) {
                Some(i) => Some(callee.skip(i + 1)),
                None => Some(callee),
            }
        },
    }
}

/// What is being written where a cursor stands behind `before`.
pub open spec fn context_in(
    before: Seq<char>,
    offset: usize,
    bindings: Seq<source::BindingView>,
    config: config::ConfigView,
) -> Option<ContextView> {
    match chars::last_in(before, CharClass::Quote, before.len() as int) {
        None => None,
        Some(quote) => {
            let query = before.skip(quote + 1);
            match called(before, quote) {
                None => None,
                Some(callee) => if chars::first_in(query, CharClass::LineBreak, 0) is Some {
                    None
                } else if config::scoped_from(config.scoped_functions, callee, 0) is Some {
                    Some(ContextView { scope: None, objects: true, query })
                } else if config::full_key_from(config.full_key_functions, callee, 0) is Some {
                    Some(ContextView { scope: None, objects: false, query })
                } else {
                    match analysis::resolved(bindings, bindings.len() as int, callee, offset) {
                        None => None,
                        Some(binding) => Some(
                            ContextView { scope: binding.scope, objects: false, query },
                        ),
                    }
                },
            }
        },
    }
}

/// What is being written in a file at `offset`.
pub open spec fn context_at(
    snapshot: index::SnapshotView,
    uri: Seq<char>,
    offset: usize,
    config: config::ConfigView,
) -> Option<ContextView> {
    match snapshot.file(uri) {
        None => None,
        Some(file) => match text::byte_slice(file.text, 0, offset as int) {
            None => None,
            Some(before) => context_in(before, offset, file.bindings, config),
        },
    }
}

/// A length as it counts in a score.
fn weigh(length: usize) -> (counted: i64)
    ensures
        counted == weight(length as nat),
        0 <= counted <= LONGEST,
{
    let length: u64 = length as u64;
    if length > LONGEST {
        LONGEST as i64
    } else {
        length as i64
    }
}

/// How many bytes the first `n` characters take, as it counts in a score.
fn weigh_front(chars: &[char], n: usize) -> (counted: i64)
    requires
        n <= chars@.len(),
    ensures
        counted == weight(text::byte_len(chars@.take(n as int))),
        0 <= counted <= LONGEST,
{
    let front = text::string_of(chars, 0, n);
    assert(chars@.subrange(0, n as int) =~= chars@.take(n as int));
    weigh(text::size(front.as_str()))
}

/// Whether a word of `text` starts with `query`.
fn has_word(text: &[char], query: &[char]) -> (found: bool)
    ensures
        found == word_starts_with(text@, query@),
{
    if chars::find_first(query, CharClass::WordBreak, 0).is_some() {
        return false;
    }
    let total: usize = text.len();
    let mut at: usize = 0;
    loop
        invariant
            at <= total,
            total == text@.len(),
            chars::first_in(query@, CharClass::WordBreak, 0) is None,
            forall|i: int|
                0 <= i < at && #[trigger] search::occurs_at(text@, query@, i) ==> !is_word_start(
                    text@,
                    i,
                ),
        decreases total - at,
    {
        let starts: bool = at == 0 || chars::is_in(text[at - 1], CharClass::WordBreak);
        if starts && search::is_at(text, query, at) {
            assert(search::occurs_at(text@, query@, at as int));
            return true;
        }
        if at == total {
            return false;
        }
        at += 1;
    }
}

/// Where the characters of `query` end when each is found after the last.
fn find_scattered(text: &[char], query: &[char]) -> (end: Option<usize>)
    ensures
        match end {
            Some(end) => scattered_end(text@, query@, 0, 0) == Some(end as int) && end
                <= text@.len(),
            None => scattered_end(text@, query@, 0, 0) is None,
        },
{
    let total: usize = text.len();
    let mut at: usize = 0;
    let mut n: usize = 0;
    while n < query.len()
        invariant
            n <= query@.len(),
            total == text@.len(),
            at <= total,
            scattered_end(text@, query@, 0, 0) == scattered_end(
                text@,
                query@,
                n as int,
                at as int,
            ),
        decreases query@.len() - n,
    {
        let one: [char; 1] = [query[n]];
        assert(one@ =~= seq![query@[n as int]]);
        match search::find(text, &one, at) {
            None => {
                return None;
            },
            Some(i) => {
                proof {
                    search::lemma_find(text@, one@, at as int);
                }
                at = i + 1;
            },
        }
        n += 1;
    }
    Some(at)
}

/// How well `insert`, found by `haystack`, answers `query`, all in lower case.
pub fn match_score(query: &str, haystack: &str, insert: &str) -> (found: Option<i64>)
    ensures
        match found {
            Some(found) => score(query@, haystack@, insert@) == Some(found as int),
            None => score(query@, haystack@, insert@) is None,
        },
{
    if query.is_empty() {
        return Some(1);
    }
    if text::same(insert, query) {
        return Some(10000);
    }
    let wanted = text::chars_of(query);
    let filled = text::chars_of(insert);
    let length: i64 = weigh(text::size(insert));
    if search::is_at(&filled, &wanted, 0) {
        return Some(9000 - length);
    }
    if has_word(&filled, &wanted) {
        return Some(8000 - length);
    }
    let within = text::chars_of(haystack);
    if let Some(i) = search::find(&within, &wanted, 0) {
        proof {
            search::lemma_find(haystack@, query@, 0);
        }
        let lead: i64 = weigh_front(&within, i);
        let size: i64 = weigh(text::size(haystack));
        return Some(7000 - lead - size / 10);
    }
    match find_scattered(&within, &wanted) {
        Some(end) => Some(5000 - weigh_front(&within, end)),
        None => None,
    }
}

/// The best score that one of the haystacks gives.
fn find_best(query: &str, found: &[String], insert: &str) -> (best: Option<i64>)
    ensures
        match best {
            Some(best) => best_score(
                query@,
                found.deep_view(),
                insert@,
                found@.len() as int,
            ) == Some(best as int),
            None => best_score(query@, found.deep_view(), insert@, found@.len() as int) is None,
        },
{
    let ghost all = found.deep_view();
    let mut best: Option<i64> = None;
    let mut n: usize = 0;
    while n < found.len()
        invariant
            n <= found@.len(),
            all == found.deep_view(),
            match best {
                Some(best) => best_score(query@, all, insert@, n as int) == Some(best as int),
                None => best_score(query@, all, insert@, n as int) is None,
            },
        decreases found@.len() - n,
    {
        assert(all[n as int] == found@[n as int]@);
        if let Some(value) = match_score(query, found[n].as_str(), insert) {
            let better: bool = match best {
                Some(other) => other <= value,
                None => true,
            };
            if better {
                best = Some(value);
            }
        }
        n += 1;
    }
    best
}

/// Whether one of `entries[i..j]` is of this kind.
fn any_of_kind(entries: &[DictionaryEntry], i: usize, j: usize, kind: EntryKind) -> (found: bool)
    requires
        i <= j <= entries@.len(),
    ensures
        found == has_kind(entries.deep_view(), i as int, j as int, kind),
{
    let ghost all = entries.deep_view();
    let mut k: usize = i;
    while k < j
        invariant
            i <= k <= j <= entries@.len(),
            all == entries.deep_view(),
            forall|n: int| i <= n < k ==> (#[trigger] all[n]).kind != kind,
        decreases j - k,
    {
        assert(all[k as int] == entries@[k as int].deep_view());
        if entries[k].kind == kind {
            return true;
        }
        k += 1;
    }
    false
}

/// The translation in the first of `entries[i..j]` that is in the locale.
fn find_value(entries: &[DictionaryEntry], i: usize, j: usize, locale: &str) -> (value: Option<
    String,
>)
    requires
        i <= j <= entries@.len(),
    ensures
        value.deep_view() == value_in(entries.deep_view(), i as int, j as int, locale@),
{
    let ghost all = entries.deep_view();
    let mut k: usize = i;
    while k < j
        invariant
            i <= k <= j <= entries@.len(),
            all == entries.deep_view(),
            value_in(all, i as int, j as int, locale@) == value_in(
                all,
                k as int,
                j as int,
                locale@,
            ),
        decreases j - k,
    {
        assert(all[k as int] == entries@[k as int].deep_view());
        if text::same(entries[k].locale.as_str(), locale) {
            return text::copy(&entries[k].value);
        }
        k += 1;
    }
    None
}

/// What the key of `entries[i..j]` is found by.
fn collect_haystacks(
    entries: &[DictionaryEntry],
    i: usize,
    j: usize,
    insert: &str,
    objects: bool,
    separator: &str,
) -> (found: Vec<String>)
    requires
        i < j <= entries@.len(),
    ensures
        found.deep_view() == haystacks(
            entries.deep_view(),
            i as int,
            j as int,
            insert@,
            objects,
            separator@,
        ),
{
    let ghost all = entries.deep_view();
    assert(all[i as int] == entries@[i as int].deep_view());
    let mut found: Vec<String> = Vec::new();
    found.push(text::to_lowercase(entries[i].key.as_str()));
    found.push(text::to_lowercase(insert));
    let ghost own = seq![text::lowercase(all[i as int].key), text::lowercase(insert@)];
    assert(found.deep_view() =~= own);
    if !objects {
        return found;
    }
    let ghost scope = all[i as int].key;
    let ghost whole = own + keys_below(all, scope, separator@, j as int);
    let mut k: usize = j;
    while k < entries.len() && entries[k].key.is_below(&entries[i].key, separator)
        invariant
            i < j <= k <= entries@.len(),
            all == entries.deep_view(),
            scope == all[i as int].key,
            scope == entries@[i as int].key@,
            whole == own + keys_below(all, scope, separator@, j as int),
            whole == found.deep_view() + keys_below(all, scope, separator@, k as int),
        decreases entries@.len() - k,
    {
        assert(all[k as int] == entries@[k as int].deep_view());
        let ghost before = found.deep_view();
        let ghost rest = keys_below(all, scope, separator@, k + 1);
        found.push(text::to_lowercase(entries[k].key.as_str()));
        assert(found.deep_view() =~= before.push(text::lowercase(all[k as int].key)));
        assert(before + (seq![text::lowercase(all[k as int].key)] + rest) =~= found.deep_view()
            + rest);
        k += 1;
    }
    assert(k < entries@.len() ==> all[k as int] == entries@[k as int].deep_view());
    assert(found.deep_view() + Seq::<Seq<char>>::empty() =~= found.deep_view());
    found
}

/// The candidate that `entries[i..j]`, which share a key, make.
fn make_candidate(
    entries: &[DictionaryEntry],
    i: usize,
    j: usize,
    context: &CompletionContext,
    locale: &str,
    separator: &str,
) -> (found: Option<CompletionCandidate>)
    requires
        i < j <= entries@.len(),
    ensures
        found.deep_view() == candidate(
            entries.deep_view(),
            i as int,
            j as int,
            context.deep_view(),
            locale@,
            separator@,
        ),
{
    assert(entries.deep_view()[i as int] == entries@[i as int].deep_view());
    let key = &entries[i].key;
    let objects = matches!(context, CompletionContext::Scope { .. });
    if objects != any_of_kind(entries, i, j, EntryKind::Object) {
        return None;
    }
    if !objects && !any_of_kind(entries, i, j, EntryKind::Leaf) {
        return None;
    }
    let (query, insert) = match context {
        CompletionContext::Scope { query } => (query.as_str(), key.as_str().to_owned()),
        CompletionContext::FullKey { query } => (query.as_str(), key.as_str().to_owned()),
        CompletionContext::ScopedKey { scope, query } => match key.relative_to(scope, separator) {
            None => {
                return None;
            },
            Some(relative) => (query.as_str(), relative.to_owned()),
        },
    };
    let found = collect_haystacks(entries, i, j, insert.as_str(), objects, separator);
    let wanted = text::to_lowercase(query);
    let filled = text::to_lowercase(insert.as_str());
    assert(found.deep_view().len() == found@.len());
    match find_best(wanted.as_str(), &found, filled.as_str()) {
        None => None,
        Some(score) => Some(
            CompletionCandidate {
                key: insert,
                canonical_key: key.as_str().to_owned(),
                detail: find_value(entries, i, j, locale),
                score,
            },
        ),
    }
}

impl IndexSnapshot {
    /// What is being written in a file at `offset`.
    pub fn completion_context_at(&self, uri: &str, offset: usize, config: &Config) -> (context:
        Option<CompletionContext>)
        ensures
            context.deep_view() == context_at(
                self.deep_view(),
                uri@,
                offset,
                config.deep_view(),
            ),
    {
        let whole = match self.text(uri) {
            Some(whole) => whole,
            None => {
                return None;
            },
        };
        let before = match text::slice(whole, 0, offset) {
            Some(before) => before,
            None => {
                return None;
            },
        };
        find_context(before, offset, self.bindings(uri), config)
    }

    /// The candidates for what is being written, the best first and no more than `limit`, and
    /// whether there are more.
    pub fn completions(
        &self,
        context: &CompletionContext,
        default_locale: &str,
        separator: &str,
        limit: usize,
    ) -> (found: (Vec<CompletionCandidate>, bool))
        ensures
            ({
                let all = ranked_candidates(
                    self.deep_view(),
                    context.deep_view(),
                    default_locale@,
                    separator@,
                );
                &&& found.1 == (all.len() > limit)
                &&& found.0.deep_view() == if all.len() > limit {
                    all.take(limit as int)
                } else {
                    all
                }
            }),
    {
        let entries = self.dictionary_entries_all();
        let ghost all = entries.deep_view();
        let ghost whole = candidates_from(
            all,
            0,
            context.deep_view(),
            default_locale@,
            separator@,
        );
        let mut candidates: Vec<CompletionCandidate> = Vec::new();
        assert(candidates.deep_view() =~= Seq::<CandidateView>::empty());
        assert(candidates.deep_view() + whole =~= whole);
        let mut i: usize = 0;
        while i < entries.len()
            invariant
                i <= entries@.len(),
                all == entries.deep_view(),
                whole == candidates.deep_view() + candidates_from(
                    all,
                    i as int,
                    context.deep_view(),
                    default_locale@,
                    separator@,
                ),
            decreases entries@.len() - i,
        {
            let mut j: usize = i + 1;
            assert(all[i as int] == entries@[i as int].deep_view());
            while j < entries.len() && entries[j].key.same(&entries[i].key)
                invariant
                    i < j <= entries@.len(),
                    all == entries.deep_view(),
                    all[i as int] == entries@[i as int].deep_view(),
                    group_end(all, i as int, i + 1) == group_end(all, i as int, j as int),
                decreases entries@.len() - j,
            {
                assert(all[j as int] == entries@[j as int].deep_view());
                j += 1;
            }
            assert(j < entries@.len() ==> all[j as int] == entries@[j as int].deep_view());
            assert(group_end(all, i as int, i + 1) == j);
            let ghost before = candidates.deep_view();
            let ghost rest = candidates_from(
                all,
                j as int,
                context.deep_view(),
                default_locale@,
                separator@,
            );
            match make_candidate(entries, i, j, context, default_locale, separator) {
                Some(found) => {
                    candidates.push(found);
                    assert(candidates.deep_view() =~= before.push(found.deep_view()));
                    assert(before + (seq![found.deep_view()] + rest) =~= candidates.deep_view()
                        + rest);
                },
                None => {
                    assert(before + (Seq::<CandidateView>::empty() + rest) =~= before + rest);
                },
            }
            i = j;
        }
        assert(candidates.deep_view() =~= whole);
        let mut ranked = sort::sort(candidates);
        let ghost full = ranked.deep_view();
        assert(full.len() == ranked@.len());
        let incomplete: bool = ranked.len() > limit;
        ranked.truncate(limit);
        assert(incomplete ==> ranked.deep_view() =~= full.take(limit as int));
        (ranked, incomplete)
    }
}

/// What is being written where a cursor stands behind `before`.
pub fn find_context(
    before: &str,
    offset: usize,
    bindings: &[source::ScopeBinding],
    config: &Config,
) -> (context: Option<CompletionContext>)
    ensures
        context.deep_view() == context_in(
            before@,
            offset,
            bindings.deep_view(),
            config.deep_view(),
        ),
{
    let lead = text::chars_of(before);
    let total: usize = lead.len();
    let quote: usize = match chars::find_last(&lead, CharClass::Quote, total) {
        Some(quote) => quote,
        None => {
            return None;
        },
    };
    let written = text::chars_of(text::string_of(&lead, quote + 1, total).as_str());
    assert(written@ =~= before@.skip(quote + 1));
    let call_text = chars::trim_end(text::string_of(&lead, 0, quote).as_str());
    assert(before@.subrange(0, quote as int) =~= before@.take(quote as int));
    let call = text::chars_of(call_text.as_str());
    let open: usize = match chars::find_last(&call, CharClass::Parenthesis, call.len()) {
        Some(open) => open,
        None => {
            return None;
        },
    };
    let callee_text = chars::trim_end(text::string_of(&call, 0, open).as_str());
    assert(call@.subrange(0, open as int) =~= call@.take(open as int));
    let name = text::chars_of(callee_text.as_str());
    let size: usize = name.len();
    let start: usize = match chars::find_last(&name, CharClass::CalleeBreak, size) {
        Some(i) => i + 1,
        None => 0,
    };
    let callee = text::string_of(&name, start, size);
    assert(callee@ =~= name@.skip(start as int));
    assert(name@.skip(0) =~= name@);
    assert(called(before@, quote as int) == Some(callee@));
    if chars::find_first(&written, CharClass::LineBreak, 0).is_some() {
        return None;
    }
    let query = text::string_of(&lead, quote + 1, total);
    if config.scoped_function(callee.as_str()).is_some() {
        return Some(CompletionContext::Scope { query });
    }
    if config.full_key_function(callee.as_str()).is_some() {
        return Some(CompletionContext::FullKey { query });
    }
    match analysis::resolve_binding(callee.as_str(), offset, bindings) {
        None => None,
        Some(binding) => match &binding.scope {
            Some(scope) => Some(CompletionContext::ScopedKey { scope: scope.clone(), query }),
            None => Some(CompletionContext::FullKey { query }),
        },
    }
}

/// Completions come in order: by score, and at one score by key.
pub proof fn completions_are_ranked(
    snapshot: index::SnapshotView,
    context: ContextView,
    locale: Seq<char>,
    separator: Seq<char>,
    i: int,
    j: int,
)
    requires
        0 <= i < j < ranked_candidates(snapshot, context, locale, separator).len(),
    ensures
        ({
            let all = ranked_candidates(snapshot, context, locale, separator);
            all[i].score > all[j].score || (all[i].score == all[j].score && !text::precedes(
                all[j].key,
                all[i].key,
            ))
        }),
{
    sort::sorting_orders::<CompletionCandidate>(
        candidates_from(snapshot.entries(), 0, context, locale, separator),
    );
    let all = ranked_candidates(snapshot, context, locale, separator);
    assert(!CompletionCandidate::ahead(all[j], all[i]));
}

} // verus!
