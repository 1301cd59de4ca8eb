//! The ranges, options and templates of calls, and the places of keys.
use crate::analysis;
use crate::config;
use crate::dictionary;
use crate::index;
use crate::key;
use crate::laws;
use crate::laws::calls;
use crate::laws::members;
use crate::laws::scoping;
use crate::navigation;
use crate::pattern;
use crate::position;
use crate::search;
use crate::source::OccurrenceKind;
use crate::syntax;
use crate::text;
use crate::workspace;
use vstd::prelude::*;

verus! {

/// The range of a string is that between its quotes, and covers what is written there.
pub proof fn ranges_are_inside_the_quotes(
    file: analysis::SourceView,
    i: int,
    front: Seq<char>,
    quote: char,
    inner: Seq<char>,
    back: Seq<char>,
)
    requires
        0 <= i < file.tree.len(),
        quote == '\'' || quote == '"',
        file.text == front + seq![quote] + inner + seq![quote] + back,
        file.tree[i].start == text::byte_len(front),
        file.tree[i].end == text::byte_len(front + seq![quote] + inner + seq![quote]),
        text::byte_len(file.text) < usize::MAX,
    ensures
        file.content(i) == syntax::inner_range(file.tree[i]),
        file.content(i).0 == file.tree[i].start + 1,
        file.content(i).1 == file.tree[i].end - 1,
        text::byte_slice(file.text, file.content(i).0 as int, file.content(i).1 as int) == Some(
            inner,
        ),
        syntax::node_text(file.tree, file.text, i) == Some(seq![quote] + inner + seq![quote]),
{
    let one = seq![quote];
    let all = file.text;
    text::lemma_encode_first(one);
    assert(text::width(quote) == 1);
    text::lemma_encode_add(front, one);
    text::lemma_encode_add(front + one, inner);
    text::lemma_encode_add(front + one + inner, one);
    text::lemma_encode_add(front + one + inner + one, back);
    let a = front.len() as int;
    let b = (front + one).len() as int;
    let c = (front + one + inner).len() as int;
    let d = (front + one + inner + one).len() as int;
    assert(all.take(a) =~= front);
    assert(all.take(b) =~= front + one);
    assert(all.take(c) =~= front + one + inner);
    assert(all.take(d) =~= front + one + inner + one);
    text::lemma_index_of_prefix(all, a);
    text::lemma_index_of_prefix(all, b);
    text::lemma_index_of_prefix(all, c);
    text::lemma_index_of_prefix(all, d);
    assert(all.subrange(b, c) =~= inner);
    assert(all.subrange(a, d) =~= one + inner + one);
}

proof fn lemma_property(
    file: analysis::SourceView,
    inside: Seq<int>,
    name: Seq<char>,
    from: int,
    m: int,
)
    requires
        0 <= from <= m < inside.len(),
        file.tree[inside[m]].kind == "pair"@,
        file.pair_name(inside[m]) == Some(name),
        forall|k: int|
            from <= k < m ==> !(file.tree[#[trigger] inside[k]].kind == "pair"@ && file.pair_name(
                inside[k],
            ) == Some(name)),
    ensures
        file.property_from(inside, name, from) == syntax::field_child(
            file.tree,
            inside[m],
            "value"@,
        ),
    decreases m - from,
{
    if from < m {
        assert(!(file.tree[inside[from]].kind == "pair"@ && file.pair_name(inside[from]) == Some(
            name,
        )));
        lemma_property(file, inside, name, from + 1, m);
    }
}

proof fn lemma_no_property(
    file: analysis::SourceView,
    inside: Seq<int>,
    name: Seq<char>,
    from: int,
)
    requires
        0 <= from,
        forall|k: int|
            from <= k < inside.len() ==> !(file.tree[#[trigger] inside[k]].kind == "pair"@
                && file.pair_name(inside[k]) == Some(name)),
    ensures
        file.property_from(inside, name, from) is None,
    decreases inside.len() - from,
{
    if from < inside.len() {
        lemma_no_property(file, inside, name, from + 1);
    }
}

/// An option of a call is the value of the first pair of that name in the object that is the second
/// argument.
pub proof fn options_are_found_by_name(
    file: analysis::SourceView,
    i: int,
    list: int,
    name: Seq<char>,
    m: int,
)
    requires
        syntax::field_child(file.tree, i, "arguments"@) == Some(list),
    ensures
        ({
            let all = syntax::named_children(file.tree, list);
            if all.len() < 2 || file.tree[all[1]].kind != "object"@ {
                file.option(i, name) is None
            } else {
                let inside = syntax::named_children(file.tree, all[1]);
                let is_it = |k: int|
                    file.tree[inside[k]].kind == "pair"@ && file.pair_name(inside[k]) == Some(name);
                &&& 0 <= m < inside.len() && is_it(m) && (forall|k: int|
                    0 <= k < m ==> !#[trigger] is_it(k)) ==> file.option(i, name)
                    == syntax::field_child(file.tree, inside[m], "value"@)
                &&& (forall|k: int| 0 <= k < inside.len() ==> !#[trigger] is_it(k))
                    ==> file.option(i, name) is None
            }
        }),
{
    let all = syntax::named_children(file.tree, list);
    if all.len() >= 2 && file.tree[all[1]].kind == "object"@ {
        let inside = syntax::named_children(file.tree, all[1]);
        let is_it = |k: int|
            file.tree[inside[k]].kind == "pair"@ && file.pair_name(inside[k]) == Some(name);
        if 0 <= m < inside.len() && is_it(m) && (forall|k: int| 0 <= k < m ==> !#[trigger] is_it(k)) {
            assert forall|k: int| 0 <= k < m implies !(file.tree[#[trigger] inside[k]].kind
                == "pair"@ && file.pair_name(inside[k]) == Some(name)) by {
                assert(!is_it(k));
            }
            lemma_property(file, inside, name, 0, m);
        }
        if forall|k: int| 0 <= k < inside.len() ==> !#[trigger] is_it(k) {
            assert forall|k: int| 0 <= k < inside.len() implies !(file.tree[
            #[trigger] inside[k]].kind == "pair"@ && file.pair_name(inside[k]) == Some(name)) by {
                assert(!is_it(k));
            }
            lemma_no_property(file, inside, name, 0);
        }
    }
}

/// The name of a pair is what is written as its key, without the quotes of a string.
pub proof fn pairs_are_named_by_their_key(
    file: analysis::SourceView,
    i: int,
    key: int,
    name: Seq<char>,
    quote: char,
)
    requires
        syntax::field_child(file.tree, i, "key"@) == Some(key),
        quote == '\'' || quote == '"',
    ensures
        file.tree[key].kind != "string"@ ==> file.pair_name(i) == syntax::node_text(
            file.tree,
            file.text,
            key,
        ),
        file.tree[key].kind == "string"@ && syntax::node_text(file.tree, file.text, key) == Some(
            seq![quote] + name + seq![quote],
        ) ==> file.pair_name(i) == Some(name),
{
    if file.tree[key].kind == "string"@ && syntax::node_text(file.tree, file.text, key) == Some(
        seq![quote] + name + seq![quote],
    ) {
        let one = seq![quote];
        let raw = one + name + one;
        let end = (name.len() + 1) as int;
        text::lemma_encode_first(one);
        text::lemma_encode_add(one, name);
        text::lemma_encode_add(one + name, one);
        assert(raw.take(1) =~= one);
        assert(raw.take(end) =~= one + name);
        text::lemma_index_of_prefix(raw, 1);
        text::lemma_index_of_prefix(raw, end);
        assert(raw.subrange(1, end) =~= name);
    }
}

/// A template in a call of a function for whole keys is in the namespace of the translator of that
/// name, if there is one, or else in that of the function, or else of the file.
pub proof fn dynamic_keys_have_a_namespace(
    file: analysis::SourceView,
    i: int,
    callee: Seq<char>,
    first: int,
    f: int,
    prefix: Seq<char>,
    range: (usize, usize),
)
    requires
        calls::is_call(file, i, callee, first),
        scoping::is_full_key_function(file.full_key_functions, f, callee),
        file.literal(first) is None,
        file.template_prefix(first) == Some((prefix, range)),
        forall|k: int|
            0 <= k < file.bindings().len() ==> !scoping::answers_to(
                #[trigger] file.bindings()[k],
                callee,
                file.tree[i].start,
            ),
    ensures
        file.call_occurrence(file.bindings(), i) matches Some(found) && found.key == prefix
            && found.kind == OccurrenceKind::DynamicScope && found.namespace == (if
            file.full_key_functions[f].default_namespace is Some {
            file.full_key_functions[f].default_namespace
        } else {
            file.default_namespace
        }),
{
    scoping::full_key_functions_are_found(file.full_key_functions, callee, f);
    scoping::the_last_translator_is_used(file.bindings(), callee, file.tree[i].start, 0);
    assert(file.call(i) == Some((callee, first)));
    assert(scoping::is_full_key_name(file.full_key_functions, callee));
}

/// A template in a call of a translator without a scope makes the key dynamic that it begins with.
pub proof fn unscoped_templates_make_keys_dynamic(
    file: analysis::SourceView,
    i: int,
    callee: Seq<char>,
    first: int,
    k: int,
    prefix: Seq<char>,
    range: (usize, usize),
)
    requires
        calls::is_call(file, i, callee, first),
        calls::is_plain_name(file, callee),
        scoping::is_used_by(file.bindings(), k, callee, file.tree[i].start),
        file.literal(first) is None,
        file.template_prefix(first) == Some((prefix, range)),
        file.bindings()[k].scope is None,
    ensures
        file.call_occurrence(file.bindings(), i) matches Some(found) && found.key == prefix
            && found.kind == OccurrenceKind::DynamicScope && found.scope is None
            && found.relative_key == Some(prefix) && found.range == range,
{
    scoping::scoped_functions_are_found(file.scoped_functions, callee, 0);
    scoping::full_key_functions_are_found(file.full_key_functions, callee, 0);
    scoping::the_last_translator_is_used(file.bindings(), callee, file.tree[i].start, k);
    assert(file.call(i) == Some((callee, first)));
}

/// A template names nothing that does not begin with a key and a separator before its first value.
pub proof fn other_templates_name_nothing(
    file: analysis::SourceView,
    i: int,
    callee: Seq<char>,
    first: int,
)
    requires
        calls::is_call(file, i, callee, first),
        file.literal(first) is None,
        file.tree[first].kind == "template_string"@,
        ({
            let all = syntax::named_children(file.tree, first);
            all.len() < 2 || file.tree[all[0]].kind != "string_fragment"@ || file.tree[all[1]].kind
                != "template_substitution"@ || (syntax::node_text(
                file.tree,
                file.text,
                all[0],
            ) matches Some(raw) ==> forall|prefix: Seq<char>|
                key::is_key(prefix, file.separator) ==> raw != #[trigger] (prefix
                    + file.separator))
        }),
    ensures
        file.call_occurrence(file.bindings(), i) is None,
{
    assert(file.call(i) == Some((callee, first)));
    let all = syntax::named_children(file.tree, first);
    if all.len() >= 2 {
        if let Some(raw) = syntax::node_text(file.tree, file.text, all[0]) {
            let cut = raw.len() - file.separator.len();
            if search::ends_with(raw, file.separator) {
                let prefix = raw.take(cut);
                assert(raw.subrange(cut, raw.len() as int) == file.separator);
                assert(raw =~= prefix + raw.subrange(cut, raw.len() as int));
                assert(raw == prefix + file.separator);
            }
        }
    }
    assert(file.template_prefix(first) is None);
}

/// The place of a range is in the file, from the position of its start to that of its end.
pub proof fn places_are_in_their_file(
    snapshot: index::SnapshotView,
    uri: Seq<char>,
    file: index::FileView,
    range: (usize, usize),
)
    requires
        snapshot.file(uri) == Some(file),
        text::index_at(file.text, range.0 as int) is Some,
        text::index_at(file.text, range.1 as int) is Some,
        text::byte_len(file.text) <= u32::MAX,
    ensures
        position::location_of(snapshot, uri, range) matches Some(place) && place.uri == uri
            && position::offset_in(snapshot, uri, place.range.start) == Some(range.0 as int)
            && position::offset_in(snapshot, uri, place.range.end) == Some(range.1 as int)
            && position::position_at(file.text, range.0 as int) == Some(place.range.start)
            && position::position_at(file.text, range.1 as int) == Some(place.range.end),
{
    position::position_and_back(file.text, range.0 as int);
    position::position_and_back(file.text, range.1 as int);
}

proof fn lemma_first_entry(
    entries: Seq<dictionary::EntryView>,
    namespace: Option<Seq<char>>,
    locale: Seq<char>,
    from: int,
)
    requires
        0 <= from,
    ensures
        match navigation::first_entry(entries, namespace, locale, from) {
            Some(entry) => entries.contains(entry) && entry.namespace == namespace && entry.locale
                == locale,
            None => forall|i: int|
                from <= i < entries.len() ==> !((#[trigger] entries[i]).namespace == namespace
                    && entries[i].locale == locale),
        },
    decreases entries.len() - from,
{
    if from < entries.len() {
        lemma_first_entry(entries, namespace, locale, from + 1);
        assert(entries.contains(entries[from]));
    }
}

/// From where a namespace is declared, the definition leads to a key of it in a dictionary of the
/// default locale, where there is one.
pub proof fn namespaces_lead_to_their_dictionary(
    held: workspace::WorkspaceView,
    uri: Seq<char>,
    position: position::Position,
    key: key::QualifiedKeyView,
)
    requires
        laws::key_stands_at(held, uri, position, key.namespace, key.key),
        laws::occurrence_at(held, uri, position) matches Some(here) && here.kind
            == OccurrenceKind::NamespaceDeclaration,
    ensures
        match navigation::definition_at(held, uri, position) {
            Some(places) => places.len() == 1 && exists|entry: dictionary::EntryView| #[trigger]
                members::is_entry(held.snapshot, entry) && entry.namespace == key.namespace
                    && entry.locale == held.config.default_locale && position::location_of(
                    held.snapshot,
                    entry.uri,
                    entry.key_range,
                ) == Some(places[0]),
            None => forall|entry: dictionary::EntryView| #[trigger]
                members::is_entry(held.snapshot, entry) && entry.namespace == key.namespace
                    && entry.locale == held.config.default_locale ==> exists|
                    other: dictionary::EntryView,
                | #[trigger]
                    members::is_entry(held.snapshot, other) && other.namespace == key.namespace
                        && other.locale == held.config.default_locale && position::location_of(
                        held.snapshot,
                        other.uri,
                        other.key_range,
                    ) is None,
        },
{
    let all = held.snapshot.entries();
    let locale = held.config.default_locale;
    lemma_first_entry(all, key.namespace, locale, 0);
    reveal_with_fuel(navigation::entry_places, 2);
    match navigation::first_entry(all, key.namespace, locale, 0) {
        Some(found) => {
            members::entries_come_from_files(held.snapshot, key.namespace, found);
            assert(members::is_entry(held.snapshot, found));
            if let Some(places) = navigation::definition_at(held, uri, position) {
                assert(places =~= navigation::entry_places(held.snapshot, seq![found], 1));
            }
        },
        None => {
            assert forall|entry: dictionary::EntryView| #[trigger]
                members::is_entry(held.snapshot, entry) && entry.namespace == key.namespace
                    && entry.locale == locale implies false by {
                members::entries_come_from_files(held.snapshot, key.namespace, entry);
                assert(all[all.index_of(entry)] == entry);
            }
        },
    }
}

/// Whether a name, and a namespace that may be given for it, can be used.
pub open spec fn is_usable(name: Seq<char>, namespace: Option<Seq<char>>) -> bool {
    key::is_key(name, "."@) && (namespace matches Some(namespace) ==> namespace.len() > 0)
}

proof fn lemma_scoped_faults(functions: Seq<config::ScopedFunctionView>, from: int)
    requires
        0 <= from,
    ensures
        config::scoped_faults(functions, from) is None <==> forall|i: int|
            from <= i < functions.len() ==> config::scoped_fault(functions, i) is None,
    decreases functions.len() - from,
{
    if from < functions.len() {
        lemma_scoped_faults(functions, from + 1);
    }
}

proof fn lemma_full_key_faults(functions: Seq<config::FullKeyFunctionView>, from: int)
    requires
        0 <= from,
    ensures
        config::full_key_faults(functions, from) is None <==> forall|i: int|
            from <= i < functions.len() ==> config::full_key_fault(functions, i) is None,
    decreases functions.len() - from,
{
    if from < functions.len() {
        lemma_full_key_faults(functions, from + 1);
    }
}

proof fn lemma_scopes(scopes: Seq<Seq<char>>, separator: Seq<char>, from: int)
    requires
        0 <= from,
    ensures
        config::invalid_scope(scopes, separator, from) is None <==> forall|i: int|
            from <= i < scopes.len() ==> key::is_key(#[trigger] scopes[i], separator),
    decreases scopes.len() - from,
{
    if from < scopes.len() {
        lemma_scopes(scopes, separator, from + 1);
    }
}

/// Whether all that a configuration names can be used.
pub open spec fn is_sound(config: config::ConfigView) -> bool {
    let scoped = config.scoped_functions;
    let full = config.full_key_functions;
    &&& search::count(config.dictionaries, "{locale}"@) == 1
    &&& search::count(config.dictionaries, "{namespace}"@) <= 1
    &&& !pattern::is_absolute(pattern::with_slashes(config.dictionaries))
    &&& pattern::glob_fault(
        pattern::glob_text(
            pattern::normal_pattern(pattern::with_slashes(config.dictionaries)),
        ),
    ) is None
    &&& config.default_locale.len() > 0
    &&& config.default_namespace matches Some(namespace) ==> namespace.len() > 0
    &&& config.key_separator.len() > 0
    &&& scoped.len() > 0
    &&& full.len() > 0
    &&& forall|i: int|
        0 <= i < scoped.len() ==> is_usable(
            (#[trigger] scoped[i]).function_name,
            scoped[i].default_namespace,
        ) && scoped[i].translation_methods.len() > 0 && config::all_dotted(
            scoped[i].translation_methods,
        )
    &&& forall|i: int, j: int|
        0 <= i < j < scoped.len() ==> scoped[i].function_name != scoped[j].function_name
    &&& forall|i: int|
        0 <= i < full.len() ==> is_usable(
            (#[trigger] full[i]).function_name,
            full[i].default_namespace,
        )
    &&& forall|i: int, j: int|
        0 <= i < j < full.len() ==> full[i].function_name != full[j].function_name
    &&& config::all_dotted(config.translation_key_types)
    &&& config::all_dotted(config.translation_key_props)
    &&& forall|i: int|
        0 <= i < config.ignored_scopes.len() ==> key::is_key(
            #[trigger] config.ignored_scopes[i],
            config.key_separator,
        )
}

/// A configuration is refused exactly where something in it cannot be used: a function twice, a
/// name or a namespace that is empty, a scope that is no key, or a pattern that does not name the
/// locale once, is absolute, or is no glob.
pub proof fn only_sound_configurations_are_taken(config: config::ConfigView)
    ensures
        config::config_fault(config) is None <==> is_sound(config),
{
    let scoped = config.scoped_functions;
    let full = config.full_key_functions;
    lemma_scoped_faults(scoped, 0);
    lemma_full_key_faults(full, 0);
    lemma_scopes(config.ignored_scopes, config.key_separator, 0);
    if config::config_fault(config) is None {
        assert forall|i: int| 0 <= i < scoped.len() implies is_usable(
            (#[trigger] scoped[i]).function_name,
            scoped[i].default_namespace,
        ) && scoped[i].translation_methods.len() > 0 && config::all_dotted(
            scoped[i].translation_methods,
        ) by {
            assert(config::scoped_fault(scoped, i) is None);
        }
        assert forall|i: int, j: int| 0 <= i < j < scoped.len() implies scoped[i].function_name
            != scoped[j].function_name by {
            assert(config::scoped_fault(scoped, j) is None);
            assert(!config::scoped_repeats(scoped, j));
        }
        assert forall|i: int| 0 <= i < full.len() implies is_usable(
            (#[trigger] full[i]).function_name,
            full[i].default_namespace,
        ) by {
            assert(config::full_key_fault(full, i) is None);
        }
        assert forall|i: int, j: int| 0 <= i < j < full.len() implies full[i].function_name
            != full[j].function_name by {
            assert(config::full_key_fault(full, j) is None);
            assert(!config::full_key_repeats(full, j));
        }
    }
    if is_sound(config) {
        assert forall|i: int| 0 <= i < scoped.len() implies config::scoped_fault(
            scoped,
            i,
        ) is None by {
            assert(is_usable(scoped[i].function_name, scoped[i].default_namespace));
        }
        assert forall|i: int| 0 <= i < full.len() implies config::full_key_fault(full, i) is None by {
            assert(is_usable(full[i].function_name, full[i].default_namespace));
        }
    }
}

} // verus!
