//! Which keys answer what has been written, and how well.
use crate::chars;
use crate::completion;
use crate::dictionary;
use crate::dictionary::EntryKind;
use crate::index;
use crate::key;
use crate::laws;
use crate::laws::members;
use crate::search;
use crate::text;
use vstd::prelude::*;

verus! {

/// Whether the letters of `query` from `n` on stand in `text` at `places`, one after the other and
/// none before `at`.
pub open spec fn are_scattered(
    text: Seq<char>,
    query: Seq<char>,
    places: Seq<int>,
    n: int,
    at: int,
) -> bool {
    &&& places.len() == query.len()
    &&& forall|k: int|
        n <= k < query.len() ==> at <= #[trigger] places[k] < text.len() && text[places[k]]
            == query[k]
    &&& forall|j: int, k: int| n <= j < k < query.len() ==> places[j] < places[k]
}

proof fn lemma_scattered(
    text: Seq<char>,
    query: Seq<char>,
    places: Seq<int>,
    n: int,
    at: int,
)
    requires
        0 <= n <= query.len(),
        0 <= at <= text.len(),
        are_scattered(text, query, places, n, at),
    ensures
        completion::scattered_end(text, query, n, at) is Some,
    decreases query.len() - n,
{
    if n < query.len() {
        let wanted = seq![query[n]];
        search::lemma_find(text, wanted, at);
        let p = places[n];
        assert(text.subrange(p, p + 1) =~= wanted);
        assert(search::occurs_at(text, wanted, p));
        let i = search::find_from(text, wanted, at)->0;
        assert(i <= p);
        assert forall|k: int| n + 1 <= k < query.len() implies i + 1 <= #[trigger] places[k]
            < text.len() && text[places[k]] == query[k] by {
            assert(places[n] < places[k]);
        }
        lemma_scattered(text, query, places, n + 1, i + 1);
    }
}

proof fn lemma_unscattered(text: Seq<char>, query: Seq<char>, n: int, at: int) -> (places: Seq<int>)
    requires
        0 <= n <= query.len(),
        0 <= at,
        completion::scattered_end(text, query, n, at) is Some,
    ensures
        are_scattered(text, query, places, n, at),
    decreases query.len() - n,
{
    if n >= query.len() {
        Seq::new(query.len(), |k: int| 0)
    } else {
        let wanted = seq![query[n]];
        search::lemma_find(text, wanted, at);
        let i = search::find_from(text, wanted, at)->0;
        assert(text.subrange(i, i + 1)[0] == text[i]);
        let rest = lemma_unscattered(text, query, n + 1, i + 1);
        let places = rest.update(n, i);
        assert forall|k: int| n <= k < query.len() implies at <= #[trigger] places[k] < text.len()
            && text[places[k]] == query[k] by {
            if k > n {
                assert(places[k] == rest[k]);
            }
        }
        assert forall|j: int, k: int| n <= j < k < query.len() implies places[j] < places[k] by {
            assert(places[k] == rest[k]);
            if j > n {
                assert(places[j] == rest[j]);
            }
        }
        places
    }
}

/// Whether a word of `text` begins with `query`: at the start of the text, or behind a dot, an
/// underscore or a hyphen.
pub open spec fn begins_a_word(text: Seq<char>, query: Seq<char>) -> bool {
    &&& forall|i: int|
        0 <= i < query.len() ==> query[i] != '.' && query[i] != '_' && (#[trigger] query[i]) != '-'
    &&& exists|at: int| #[trigger]
        search::occurs_at(text, query, at) && (at == 0 || text[at - 1] == '.' || text[at - 1] == '_'
            || text[at - 1] == '-')
}

/// What answers, and how well: the text itself best, then what begins with it, what has a word that
/// does, what holds it, and what has its letters in their order; nothing else.
pub proof fn better_answers_score_higher(
    query: Seq<char>,
    haystack: Seq<char>,
    insert: Seq<char>,
    i: int,
)
    ensures
        ({
            let found = completion::score(query, haystack, insert);
            if query.len() == 0 {
                found == Some(1int)
            } else if insert == query {
                found == Some(10000int)
            } else if search::occurs_at(insert, query, 0) {
                found == Some(9000 - completion::weight(text::byte_len(insert)))
            } else if begins_a_word(insert, query) {
                found == Some(8000 - completion::weight(text::byte_len(insert)))
            } else {
                &&& search::occurs_at(haystack, query, i) && (forall|j: int|
                    0 <= j < i ==> !search::occurs_at(haystack, query, j)) ==> found == Some(
                    7000 - completion::weight(text::byte_len(haystack.take(i)))
                        - completion::weight(text::byte_len(haystack)) / 10,
                )
                &&& found is Some <==> exists|places: Seq<int>|
                    are_scattered(haystack, query, places, 0, 0)
                &&& found matches Some(value) ==> value <= 7000
            }
        }),
{
    let found = completion::score(query, haystack, insert);
    chars::lemma_first_in(query, chars::CharClass::WordBreak, 0);
    assert(search::starts_with(insert, query) == search::occurs_at(insert, query, 0));
    assert(completion::word_starts_with(insert, query) == begins_a_word(insert, query)) by {
        if completion::word_starts_with(insert, query) {
            let at = choose|at: int| #[trigger]
                search::occurs_at(insert, query, at) && completion::is_word_start(insert, at);
            assert(at == 0 || chars::belongs(insert[at - 1], chars::CharClass::WordBreak));
            assert forall|i: int| 0 <= i < query.len() implies query[i] != '.' && query[i] != '_'
                && (#[trigger] query[i]) != '-' by {
                assert(!chars::belongs(query[i], chars::CharClass::WordBreak));
            }
        }
        if begins_a_word(insert, query) {
            let at = choose|at: int| #[trigger]
                search::occurs_at(insert, query, at) && (at == 0 || insert[at - 1] == '.'
                    || insert[at - 1] == '_' || insert[at - 1] == '-');
            assert(completion::is_word_start(insert, at));
            if let Some(k) = chars::first_in(query, chars::CharClass::WordBreak, 0) {
                assert(chars::belongs(query[k], chars::CharClass::WordBreak));
                assert(query[k] != '-');
            }
        }
    }
    search::lemma_find(haystack, query, 0);
    if let Some(k) = search::find_from(haystack, query, 0) {
        let places = Seq::new(query.len(), |n: int| k + n);
        assert forall|n: int| 0 <= n < query.len() implies 0 <= #[trigger] places[n]
            < haystack.len() && haystack[places[n]] == query[n] by {
            assert(haystack.subrange(k, k + query.len())[n] == haystack[k + n]);
        }
        assert(are_scattered(haystack, query, places, 0, 0));
    } else if completion::scattered_end(haystack, query, 0, 0) is Some {
        let places = lemma_unscattered(haystack, query, 0, 0);
        assert(are_scattered(haystack, query, places, 0, 0));
    }
    if exists|places: Seq<int>| are_scattered(haystack, query, places, 0, 0) {
        let places = choose|places: Seq<int>| are_scattered(haystack, query, places, 0, 0);
        lemma_scattered(haystack, query, places, 0, 0);
    }
    assert(completion::weight(text::byte_len(haystack)) / 10 >= 0);
}

/// Whether an entry is to be offered: it is of the kind that is asked for, lies in the scope that
/// is written in, and its key has the letters of what has been written.
pub open spec fn is_sought(
    entries: Seq<dictionary::EntryView>,
    k: int,
    context: completion::ContextView,
    separator: Seq<char>,
) -> bool {
    let key = entries[k].key;
    &&& if context.objects {
        entries[k].kind == EntryKind::Object
    } else {
        forall|i: int|
            0 <= i < entries.len() && (#[trigger] entries[i]).key == key ==> entries[i].kind
                == EntryKind::Leaf
    }
    &&& context.scope matches Some(scope) ==> key::is_below(key, scope, separator)
    &&& exists|places: Seq<int>|
        are_scattered(text::lowercase(key), text::lowercase(context.query), places, 0, 0)
}

proof fn lemma_best(query: Seq<char>, haystacks: Seq<Seq<char>>, insert: Seq<char>, n: int)
    requires
        0 < n <= haystacks.len(),
        completion::score(query, haystacks[0], insert) is Some,
    ensures
        completion::best_score(query, haystacks, insert, n) is Some,
    decreases n,
{
    if n > 1 {
        lemma_best(query, haystacks, insert, n - 1);
    }
}

proof fn lemma_sought(
    entries: Seq<dictionary::EntryView>,
    i: int,
    k: int,
    context: completion::ContextView,
    locale: Seq<char>,
    separator: Seq<char>,
)
    requires
        0 <= i <= k < entries.len(),
        is_sought(entries, k, context, separator),
    ensures
        exists|n: int|
            0 <= n < completion::candidates_from(entries, i, context, locale, separator).len()
                && laws::stands_for(
                #[trigger] completion::candidates_from(
                    entries,
                    i,
                    context,
                    locale,
                    separator,
                )[n],
                entries[k],
                context,
                separator,
            ),
    decreases k - i,
{
    completion::lemma_group_end(entries, i, i + 1);
    laws::lemma_group_key(entries, i, i + 1);
    let j = completion::group_end(entries, i, i + 1);
    let all = completion::candidates_from(entries, i, context, locale, separator);
    let rest = completion::candidates_from(entries, j, context, locale, separator);
    if k < j {
        let key = entries[i].key;
        assert(entries[k].key == key);
        if let Some(scope) = context.scope {
            laws::below_is_relative(key, scope, separator);
        }
        let insert = match context.scope {
            Some(scope) => key::relative_key(key, scope, separator)->Some_0,
            None => key,
        };
        let found = completion::haystacks(entries, i, j, insert, context.objects, separator);
        assert(found[0] == text::lowercase(key));
        let query = text::lowercase(context.query);
        better_answers_score_higher(query, found[0], text::lowercase(insert), 0);
        lemma_best(query, found, text::lowercase(insert), found.len() as int);
        if context.objects {
            assert(completion::has_kind(entries, i, j, EntryKind::Object)) by {
                assert(entries[k].kind == EntryKind::Object);
            }
        } else {
            assert(entries[i].kind == EntryKind::Leaf);
            assert(!completion::has_kind(entries, i, j, EntryKind::Object));
        }
        assert(completion::candidate(entries, i, j, context, locale, separator) is Some);
        assert(laws::stands_for(all[0], entries[k], context, separator));
    } else {
        lemma_sought(entries, j, k, context, locale, separator);
        let n = choose|n: int|
            0 <= n < rest.len() && laws::stands_for(
                #[trigger] rest[n],
                entries[k],
                context,
                separator,
            );
        let m = n + (all.len() - rest.len());
        assert(all[m] == rest[n]);
    }
}

/// Whatever key is sought is among the candidates: a scope where scopes are written, and else a
/// translation, in the scope that is written in.
pub proof fn sought_keys_are_candidates(
    snapshot: index::SnapshotView,
    context: completion::ContextView,
    locale: Seq<char>,
    separator: Seq<char>,
    k: int,
)
    requires
        0 <= k < snapshot.entries().len(),
        is_sought(snapshot.entries(), k, context, separator),
    ensures
        exists|n: int|
            0 <= n < completion::ranked_candidates(snapshot, context, locale, separator).len()
                && laws::stands_for(
                #[trigger] completion::ranked_candidates(snapshot, context, locale, separator)[n],
                snapshot.entries()[k],
                context,
                separator,
            ),
{
    let entries = snapshot.entries();
    let found = completion::candidates_from(entries, 0, context, locale, separator);
    let ranked = completion::ranked_candidates(snapshot, context, locale, separator);
    lemma_sought(entries, 0, k, context, locale, separator);
    let m = choose|m: int|
        0 <= m < found.len() && laws::stands_for(
            #[trigger] found[m],
            entries[k],
            context,
            separator,
        );
    assert(found.contains(found[m]));
    members::sorted_members::<completion::CompletionCandidate>(found, found[m]);
    assert(laws::stands_for(ranked[ranked.index_of(found[m])], entries[k], context, separator));
}

/// Whether a candidate is of an entry of the kind that is asked for, and shows no translation but
/// one in the locale.
pub open spec fn is_of_kind(
    entries: Seq<dictionary::EntryView>,
    candidate: completion::CandidateView,
    context: completion::ContextView,
    locale: Seq<char>,
    separator: Seq<char>,
) -> bool {
    &&& exists|k: int|
        0 <= k < entries.len() && laws::stands_for(
            candidate,
            #[trigger] entries[k],
            context,
            separator,
        ) && entries[k].kind == if context.objects {
            EntryKind::Object
        } else {
            EntryKind::Leaf
        }
    &&& candidate.detail matches Some(value) ==> exists|k: int|
        0 <= k < entries.len() && (#[trigger] entries[k]).key == candidate.canonical_key
            && entries[k].locale == locale && entries[k].value == Some(value)
}

proof fn lemma_value_in(
    entries: Seq<dictionary::EntryView>,
    i: int,
    j: int,
    locale: Seq<char>,
)
    requires
        0 <= i <= j <= entries.len(),
    ensures
        completion::value_in(entries, i, j, locale) matches Some(value) ==> exists|k: int|
            i <= k < j && (#[trigger] entries[k]).locale == locale && entries[k].value == Some(
                value,
            ),
    decreases j - i,
{
    if i < j {
        lemma_value_in(entries, i + 1, j, locale);
    }
}

proof fn lemma_kinds(
    entries: Seq<dictionary::EntryView>,
    i: int,
    context: completion::ContextView,
    locale: Seq<char>,
    separator: Seq<char>,
    candidate: completion::CandidateView,
)
    requires
        0 <= i,
        completion::candidates_from(entries, i, context, locale, separator).contains(candidate),
    ensures
        is_of_kind(entries, candidate, context, locale, separator),
    decreases entries.len() - i,
{
    if i < entries.len() {
        completion::lemma_group_end(entries, i, i + 1);
        laws::lemma_group_key(entries, i, i + 1);
        let j = completion::group_end(entries, i, i + 1);
        let rest = completion::candidates_from(entries, j, context, locale, separator);
        let own = completion::candidate(entries, i, j, context, locale, separator);
        let first = match own {
            Some(found) => seq![found],
            None => Seq::empty(),
        };
        members::lemma_added(first, rest, candidate);
        if rest.contains(candidate) {
            lemma_kinds(entries, j, context, locale, separator, candidate);
        } else {
            let kind = if context.objects {
                EntryKind::Object
            } else {
                EntryKind::Leaf
            };
            assert(completion::has_kind(entries, i, j, kind));
            let k = choose|k: int| i <= k < j && (#[trigger] entries[k]).kind == kind;
            assert(entries[k].key == entries[i].key);
            assert(laws::stands_for(candidate, entries[k], context, separator));
            lemma_value_in(entries, i, j, locale);
            if let Some(value) = candidate.detail {
                let m = choose|m: int|
                    i <= m < j && (#[trigger] entries[m]).locale == locale && entries[m].value
                        == Some(value);
                assert(entries[m].key == candidate.canonical_key);
            }
        }
    }
}

/// Every candidate is of the kind that is asked for, and shows a translation of its key in the
/// default locale, if any.
pub proof fn candidates_are_of_the_kind(
    snapshot: index::SnapshotView,
    context: completion::ContextView,
    locale: Seq<char>,
    separator: Seq<char>,
    n: int,
)
    requires
        0 <= n < completion::ranked_candidates(snapshot, context, locale, separator).len(),
    ensures
        is_of_kind(
            snapshot.entries(),
            completion::ranked_candidates(snapshot, context, locale, separator)[n],
            context,
            locale,
            separator,
        ),
{
    let found = completion::candidates_from(snapshot.entries(), 0, context, locale, separator);
    let ranked = completion::ranked_candidates(snapshot, context, locale, separator);
    assert(ranked.contains(ranked[n]));
    members::sorted_members::<completion::CompletionCandidate>(found, ranked[n]);
    lemma_kinds(snapshot.entries(), 0, context, locale, separator, ranked[n]);
}

proof fn lemma_best_is_highest(
    query: Seq<char>,
    haystacks: Seq<Seq<char>>,
    insert: Seq<char>,
    n: int,
)
    requires
        0 <= n <= haystacks.len(),
    ensures
        match completion::best_score(query, haystacks, insert, n) {
            Some(best) => (exists|i: int|
                0 <= i < n && completion::score(query, #[trigger] haystacks[i], insert) == Some(
                    best,
                )) && forall|i: int|
                0 <= i < n ==> (completion::score(
                    query,
                    #[trigger] haystacks[i],
                    insert,
                ) matches Some(other) ==> other <= best),
            None => forall|i: int|
                0 <= i < n ==> completion::score(query, #[trigger] haystacks[i], insert) is None,
        },
    decreases n,
{
    if n > 0 {
        lemma_best_is_highest(query, haystacks, insert, n - 1);
        assert(completion::score(query, haystacks[n - 1], insert) == completion::score(
            query,
            haystacks[n - 1],
            insert,
        ));
    }
}

/// Of all that a key is found by, the best answer counts.
pub proof fn the_best_answer_counts(
    query: Seq<char>,
    haystacks: Seq<Seq<char>>,
    insert: Seq<char>,
    i: int,
)
    requires
        0 <= i < haystacks.len(),
    ensures
        ({
            let best = completion::best_score(query, haystacks, insert, haystacks.len() as int);
            &&& completion::score(query, haystacks[i], insert) matches Some(other) ==> (
            best matches Some(best) && other <= best)
            &&& best matches Some(best) ==> exists|k: int|
                0 <= k < haystacks.len() && completion::score(
                    query,
                    #[trigger] haystacks[k],
                    insert,
                ) == Some(best)
        }),
{
    lemma_best_is_highest(query, haystacks, insert, haystacks.len() as int);
}

proof fn lemma_keys_below(
    entries: Seq<dictionary::EntryView>,
    scope: Seq<char>,
    separator: Seq<char>,
    j: int,
    m: int,
)
    requires
        0 <= j <= m < entries.len(),
        forall|i: int|
            j <= i <= m ==> key::is_below((#[trigger] entries[i]).key, scope, separator),
    ensures
        completion::keys_below(entries, scope, separator, j).contains(
            text::lowercase(entries[m].key),
        ),
    decreases m - j,
{
    let all = completion::keys_below(entries, scope, separator, j);
    let rest = completion::keys_below(entries, scope, separator, j + 1);
    assert(key::is_below(entries[j].key, scope, separator));
    assert(all == seq![text::lowercase(entries[j].key)] + rest);
    if j < m {
        lemma_keys_below(entries, scope, separator, j + 1, m);
        assert(all[rest.index_of(text::lowercase(entries[m].key)) + 1] == text::lowercase(
            entries[m].key,
        ));
    } else {
        assert(all[0] == text::lowercase(entries[m].key));
    }
}

/// Where scopes are written, a scope is a candidate also by a key that follows it in the order of
/// keys and lies below it, with all in between.
pub proof fn scopes_are_found_by_what_is_in_them(
    entries: Seq<dictionary::EntryView>,
    i: int,
    j: int,
    m: int,
    context: completion::ContextView,
    locale: Seq<char>,
    separator: Seq<char>,
)
    requires
        0 <= i < j <= m < entries.len(),
        context.objects,
        context.scope is None,
        completion::has_kind(entries, i, j, EntryKind::Object),
        forall|n: int|
            j <= n <= m ==> key::is_below((#[trigger] entries[n]).key, entries[i].key, separator),
        exists|places: Seq<int>|
            are_scattered(
                text::lowercase(entries[m].key),
                text::lowercase(context.query),
                places,
                0,
                0,
            ),
    ensures
        completion::candidate(entries, i, j, context, locale, separator) matches Some(found)
            && found.key == entries[i].key && found.canonical_key == entries[i].key,
{
    let query = text::lowercase(context.query);
    let insert = text::lowercase(entries[i].key);
    let found = completion::haystacks(entries, i, j, entries[i].key, true, separator);
    let own = seq![insert, insert];
    let below = completion::keys_below(entries, entries[i].key, separator, j);
    lemma_keys_below(entries, entries[i].key, separator, j, m);
    let k = below.index_of(text::lowercase(entries[m].key));
    assert(found =~= own + below);
    assert(found[k + 2] == below[k]);
    better_answers_score_higher(query, found[k + 2], insert, 0);
    assert(completion::score(query, found[k + 2], insert) is Some);
    the_best_answer_counts(query, found, insert, k + 2);
}

proof fn lemma_value_found(
    entries: Seq<dictionary::EntryView>,
    i: int,
    j: int,
    locale: Seq<char>,
    k: int,
    value: Seq<char>,
)
    requires
        0 <= i <= k < j <= entries.len(),
        entries[k].locale == locale,
        forall|n: int|
            i <= n < j && (#[trigger] entries[n]).locale == locale ==> entries[n].value == Some(
                value,
            ),
    ensures
        completion::value_in(entries, i, j, locale) == Some(value),
    decreases j - i,
{
    if i < k && entries[i].locale != locale {
        lemma_value_found(entries, i + 1, j, locale, k, value);
    }
}

/// A candidate shows the translation of its key in the default locale.
pub proof fn candidates_show_their_translation(
    entries: Seq<dictionary::EntryView>,
    i: int,
    j: int,
    context: completion::ContextView,
    locale: Seq<char>,
    separator: Seq<char>,
    k: int,
    value: Seq<char>,
)
    requires
        0 <= i <= k < j <= entries.len(),
        entries[k].locale == locale,
        forall|n: int|
            i <= n < j && (#[trigger] entries[n]).locale == locale ==> entries[n].value == Some(
                value,
            ),
    ensures
        completion::candidate(entries, i, j, context, locale, separator) matches Some(found)
            ==> found.detail == Some(value),
{
    lemma_value_found(entries, i, j, locale, k, value);
}

} // verus!
