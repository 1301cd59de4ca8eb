//! Which keys the calls in source code name.
use crate::analysis;
use crate::key;
use crate::laws::keys;
use crate::laws::members;
use crate::laws::scoping;
use crate::search;
use crate::source;
use crate::source::OccurrenceKind;
use crate::syntax;
use crate::text;
use vstd::prelude::*;

verus! {

/// Whether node `i` calls `callee` with `first` as first argument.
pub open spec fn is_call(
    file: analysis::SourceView,
    i: int,
    callee: Seq<char>,
    first: int,
) -> bool {
    &&& file.tree[i].kind == "call_expression"@
    &&& syntax::field_child(file.tree, i, "function"@) matches Some(function)
        && syntax::node_text(file.tree, file.text, function) == Some(callee)
    &&& syntax::field_child(file.tree, i, "arguments"@) matches Some(list) && {
        let all = syntax::named_children(file.tree, list);
        all.len() > 0 && all[0] == first
    }
}

/// Whether a call by this name is neither of a configured function nor of one of i18next.
pub open spec fn is_plain_name(file: analysis::SourceView, callee: Seq<char>) -> bool {
    &&& !scoping::is_scoped_name(file.scoped_functions, callee)
    &&& !scoping::is_full_key_name(file.full_key_functions, callee)
    &&& callee != "useTranslation"@
    &&& callee != "i18next.t"@
}

/// The namespace and the key that a literal names, where a colon does not part the two the whole
/// of it in the namespace at hand.
pub open spec fn reads_as(
    value: Seq<char>,
    separator: Seq<char>,
    at_hand: Option<Seq<char>>,
    namespace: Option<Seq<char>>,
    key: Seq<char>,
) -> bool {
    ||| namespace matches Some(named) && keys::names_both(value, separator, named, key)
    ||| namespace == at_hand && key == value && forall|named: Seq<char>, rest: Seq<char>|
        !keys::names_both(value, separator, named, rest)
}

proof fn lemma_reads(value: Seq<char>, separator: Seq<char>)
    ensures
        key::namespace_and_key(value, separator) matches Some((namespace, key)) ==> keys::names_both(
            value,
            separator,
            namespace,
            key,
        ),
        forall|named: Seq<char>, rest: Seq<char>|
            keys::names_both(value, separator, named, rest) ==> key::namespace_and_key(
                value,
                separator,
            ) == Some((named, rest)),
{
    if let Some((namespace, key)) = key::namespace_and_key(value, separator) {
        keys::namespaces_stand_before_a_colon(value, separator, namespace, key);
    }
    assert forall|named: Seq<char>, rest: Seq<char>|
        keys::names_both(value, separator, named, rest) implies key::namespace_and_key(
        value,
        separator,
    ) == Some((named, rest)) by {
        keys::namespaces_stand_before_a_colon(value, separator, named, rest);
    }
}

/// A literal in a call of a translator names a key in the scope of the translator, however many
/// segments it has: the scope, a separator and the literal. What the literal says of a namespace
/// goes before what the translator says.
pub proof fn scoped_calls_name_keys_in_the_scope(
    file: analysis::SourceView,
    i: int,
    callee: Seq<char>,
    first: int,
    k: int,
    value: Seq<char>,
    namespace: Option<Seq<char>>,
    relative: Seq<char>,
    scope: Seq<char>,
)
    requires
        is_call(file, i, callee, first),
        is_plain_name(file, callee),
        scoping::is_used_by(file.bindings(), k, callee, file.tree[i].start),
        file.literal(first) == Some(value),
        reads_as(value, file.separator, file.bindings()[k].namespace, namespace, relative),
        file.bindings()[k].scope == Some(scope),
        key::is_key(scope + file.separator + relative, file.separator),
    ensures
        file.call_occurrence(file.bindings(), i) matches Some(found) && {
            &&& found.key == scope + file.separator + relative
            &&& key::relative_key(found.key, scope, file.separator) == Some(relative)
            &&& key::relative_key(found.key, scope, file.separator) == found.relative_key
            &&& found.kind == OccurrenceKind::ScopedKey
            &&& found.namespace == namespace
            &&& found.scope == Some(scope)
            &&& found.range == file.content(first)
            &&& found.uri == file.uri
            &&& found.arguments == Some(file.arguments(i))
        },
{
    lemma_plain_call(file, i, callee, first, k);
    lemma_reads(value, file.separator);
    crate::laws::what_follows_a_scope_is_relative(scope, relative, file.separator);
}

/// Where the scope is a key and the literal is one, the two together always are, for a separator
/// that cannot overlap itself: so the literal names its key in the scope.
pub proof fn scoped_calls_name_keys(
    file: analysis::SourceView,
    i: int,
    callee: Seq<char>,
    first: int,
    k: int,
    value: Seq<char>,
    scope: Seq<char>,
)
    requires
        is_call(file, i, callee, first),
        is_plain_name(file, callee),
        scoping::is_used_by(file.bindings(), k, callee, file.tree[i].start),
        file.literal(first) == Some(value),
        !value.contains(':'),
        file.bindings()[k].scope == Some(scope),
        crate::laws::is_unbordered(file.separator),
        key::is_key(scope, file.separator),
        key::is_key(value, file.separator),
    ensures
        file.call_occurrence(file.bindings(), i) matches Some(found) && found.key == scope
            + file.separator + value && found.relative_key == Some(value) && found.kind
            == OccurrenceKind::ScopedKey && found.namespace == file.bindings()[k].namespace,
{
    keys::keys_join_to_keys(scope, value, file.separator);
    assert forall|named: Seq<char>, rest: Seq<char>|
        !keys::names_both(value, file.separator, named, rest) by {
        if keys::names_both(value, file.separator, named, rest) {
            assert(value[named.len() as int] == ':');
        }
    }
    scoped_calls_name_keys_in_the_scope(
        file,
        i,
        callee,
        first,
        k,
        value,
        file.bindings()[k].namespace,
        value,
        scope,
    );
}

proof fn lemma_plain_call(
    file: analysis::SourceView,
    i: int,
    callee: Seq<char>,
    first: int,
    k: int,
)
    requires
        is_call(file, i, callee, first),
        is_plain_name(file, callee),
    ensures
        file.call(i) == Some((callee, first)),
        crate::config::scoped_from(file.scoped_functions, callee, 0) is None,
        crate::config::full_key_from(file.full_key_functions, callee, 0) is None,
        !file.takes_full_keys(callee),
        scoping::is_used_by(file.bindings(), k, callee, file.tree[i].start) ==> analysis::resolved(
            file.bindings(),
            file.bindings().len() as int,
            callee,
            file.tree[i].start,
        ) == Some(file.bindings()[k]),
{
    scoping::scoped_functions_are_found(file.scoped_functions, callee, 0);
    scoping::full_key_functions_are_found(file.full_key_functions, callee, 0);
    scoping::the_last_translator_is_used(file.bindings(), callee, file.tree[i].start, k);
}

/// A literal in a call of a translator without a scope, or one that makes no key under the scope,
/// names itself as a key; where it is none, nothing.
pub proof fn unscoped_calls_name_whole_keys(
    file: analysis::SourceView,
    i: int,
    callee: Seq<char>,
    first: int,
    k: int,
    value: Seq<char>,
    namespace: Option<Seq<char>>,
    relative: Seq<char>,
)
    requires
        is_call(file, i, callee, first),
        is_plain_name(file, callee),
        scoping::is_used_by(file.bindings(), k, callee, file.tree[i].start),
        file.literal(first) == Some(value),
        reads_as(value, file.separator, file.bindings()[k].namespace, namespace, relative),
        file.bindings()[k].scope matches Some(scope) ==> !key::is_key(
            scope + file.separator + relative,
            file.separator,
        ),
    ensures
        key::is_key(relative, file.separator) ==> (file.call_occurrence(file.bindings(), i) matches Some(
            found,
        ) && found.key == relative && found.relative_key == Some(relative) && found.kind
            == OccurrenceKind::ScopedKey && found.namespace == namespace && found.scope
            == file.bindings()[k].scope && found.range == file.content(first) && found.uri
            == file.uri && found.arguments == Some(file.arguments(i))),
        !key::is_key(relative, file.separator) ==> file.call_occurrence(file.bindings(), i) is None,
{
    lemma_plain_call(file, i, callee, first, k);
    lemma_reads(value, file.separator);
}

/// A call that is of no translator and of no function that takes keys names nothing.
pub proof fn other_calls_name_nothing(
    file: analysis::SourceView,
    i: int,
    callee: Seq<char>,
    first: int,
)
    requires
        is_call(file, i, callee, first),
        is_plain_name(file, callee),
        forall|k: int|
            0 <= k < file.bindings().len() ==> !scoping::answers_to(
                #[trigger] file.bindings()[k],
                callee,
                file.tree[i].start,
            ),
    ensures
        file.call_occurrence(file.bindings(), i) is None,
{
    lemma_plain_call(file, i, callee, first, 0);
    scoping::the_last_translator_is_used(file.bindings(), callee, file.tree[i].start, 0);
}

/// A literal in a call of a function for whole keys names itself as a key. Its namespace is what
/// the literal says, or else what the options of the call say where it is of i18next, or else what
/// is configured for the function, or else for the file.
pub proof fn full_key_calls_name_whole_keys(
    file: analysis::SourceView,
    i: int,
    callee: Seq<char>,
    first: int,
    f: int,
    value: Seq<char>,
    namespace: Option<Seq<char>>,
    key: Seq<char>,
)
    requires
        is_call(file, i, callee, first),
        !scoping::is_scoped_name(file.scoped_functions, callee),
        callee != "useTranslation"@,
        scoping::is_full_key_function(file.full_key_functions, f, callee) || (callee
            == "i18next.t"@ && !scoping::is_full_key_name(file.full_key_functions, callee)),
        file.literal(first) == Some(value),
        reads_as(
            value,
            file.separator,
            if callee == "i18next.t"@ && file.option_text(i, "ns"@) is Some {
                file.option_text(i, "ns"@)
            } else if scoping::is_full_key_function(file.full_key_functions, f, callee)
                && file.full_key_functions[f].default_namespace is Some {
                file.full_key_functions[f].default_namespace
            } else {
                file.default_namespace
            },
            namespace,
            key,
        ),
    ensures
        key::is_key(value, file.separator) ==> (file.call_occurrence(file.bindings(), i) matches Some(
            found,
        ) && found.key == key && found.namespace == namespace && found.kind
            == OccurrenceKind::FullKey && found.range == file.content(first) && found.uri
            == file.uri && found.scope is None && found.relative_key is None && found.arguments
            == Some(file.arguments(i))),
        !key::is_key(value, file.separator) ==> file.call_occurrence(file.bindings(), i) is None,
{
    scoping::scoped_functions_are_found(file.scoped_functions, callee, 0);
    scoping::full_key_functions_are_found(file.full_key_functions, callee, f);
    lemma_reads(value, file.separator);
    assert(file.call(i) == Some((callee, first)));
}

/// A literal in a call of a scoped function declares the scope that it is, in the namespace that is
/// configured for the function, or else for the file.
pub proof fn scoped_functions_declare_scopes(
    file: analysis::SourceView,
    i: int,
    callee: Seq<char>,
    first: int,
    f: int,
    value: Seq<char>,
)
    requires
        is_call(file, i, callee, first),
        scoping::is_scoped_function(file.scoped_functions, f, callee),
        file.literal(first) == Some(value),
    ensures
        key::is_key(value, file.separator) ==> (file.call_occurrence(file.bindings(), i) matches Some(
            found,
        ) && found.key == value && found.kind == OccurrenceKind::ScopeDeclaration
            && found.namespace == (if file.scoped_functions[f].default_namespace is Some {
            file.scoped_functions[f].default_namespace
        } else {
            file.default_namespace
        }) && found.range == file.content(first) && found.uri == file.uri && found.scope is None
            && found.relative_key is None && found.arguments is None),
        !key::is_key(value, file.separator) ==> file.call_occurrence(file.bindings(), i) is None,
{
    scoping::scoped_functions_are_found(file.scoped_functions, callee, f);
    assert(file.call(i) == Some((callee, first)));
}

/// A literal in a call of `useTranslation` declares the namespace that it is.
pub proof fn hooks_declare_namespaces(
    file: analysis::SourceView,
    i: int,
    first: int,
    value: Seq<char>,
)
    requires
        is_call(file, i, "useTranslation"@, first),
        !scoping::is_scoped_name(file.scoped_functions, "useTranslation"@),
        file.literal(first) == Some(value),
    ensures
        key::is_key(value, file.separator) ==> (file.call_occurrence(file.bindings(), i) matches Some(
            found,
        ) && found.key == value && found.kind == OccurrenceKind::NamespaceDeclaration
            && found.namespace == Some(value) && found.range == file.content(first) && found.uri
            == file.uri && found.scope is None && found.relative_key is None
            && found.arguments is None),
        !key::is_key(value, file.separator) ==> file.call_occurrence(file.bindings(), i) is None,
{
    scoping::scoped_functions_are_found(file.scoped_functions, "useTranslation"@, 0);
    assert(file.call(i) == Some(("useTranslation"@, first)));
}

/// A template that begins with a key and a separator before its first value, in a call of a
/// translator, makes the key dynamic, in the scope of the translator.
pub proof fn templates_make_scopes_dynamic(
    file: analysis::SourceView,
    i: int,
    callee: Seq<char>,
    first: int,
    k: int,
    prefix: Seq<char>,
    range: (usize, usize),
    scope: Seq<char>,
)
    requires
        is_call(file, i, callee, first),
        is_plain_name(file, callee),
        scoping::is_used_by(file.bindings(), k, callee, file.tree[i].start),
        file.literal(first) is None,
        file.template_prefix(first) == Some((prefix, range)),
        file.bindings()[k].scope == Some(scope),
        key::is_key(scope + file.separator + prefix, file.separator),
    ensures
        file.call_occurrence(file.bindings(), i) matches Some(found) && found.key == scope
            + file.separator + prefix && found.kind == OccurrenceKind::DynamicScope && found.scope
            == Some(scope) && found.relative_key == Some(prefix) && found.range == range
            && found.uri == file.uri && found.namespace == (if file.bindings()[k].namespace is Some {
            file.bindings()[k].namespace
        } else {
            file.default_namespace
        }),
{
    lemma_plain_call(file, i, callee, first, k);
}

/// A template that begins with a key and a separator before its first value, in a call of a
/// function for whole keys, makes the key dynamic.
pub proof fn templates_make_keys_dynamic(
    file: analysis::SourceView,
    i: int,
    callee: Seq<char>,
    first: int,
    prefix: Seq<char>,
    range: (usize, usize),
)
    requires
        is_call(file, i, callee, first),
        scoping::is_full_key_name(file.full_key_functions, callee) || callee == "i18next.t"@,
        file.literal(first) is None,
        file.template_prefix(first) == Some((prefix, range)),
    ensures
        file.call_occurrence(file.bindings(), i) matches Some(found) && found.key == prefix
            && found.kind == OccurrenceKind::DynamicScope && found.range == range && found.uri
            == file.uri && found.scope is None,
{
    scoping::full_key_functions_are_found(file.full_key_functions, callee, 0);
    assert(file.call(i) == Some((callee, first)));
}

/// What is written before the first value of a template is its beginning, if that is a key and a
/// separator.
pub proof fn templates_begin_with_a_key(
    file: analysis::SourceView,
    i: int,
    fragment: int,
    value: int,
    prefix: Seq<char>,
)
    requires
        file.tree[i].kind == "template_string"@,
        syntax::named_children(file.tree, i).len() >= 2,
        syntax::named_children(file.tree, i)[0] == fragment,
        syntax::named_children(file.tree, i)[1] == value,
        file.tree[fragment].kind == "string_fragment"@,
        file.tree[value].kind == "template_substitution"@,
        syntax::node_text(file.tree, file.text, fragment) == Some(prefix + file.separator),
        key::is_key(prefix, file.separator),
    ensures
        file.template_prefix(i) matches Some((found, range)) && found == prefix && range.0
            == file.tree[fragment].start && (text::byte_len(file.separator)
            <= file.tree[fragment].end ==> range.1 + text::byte_len(file.separator)
            == file.tree[fragment].end),
{
    let raw = prefix + file.separator;
    let cut = raw.len() - file.separator.len();
    assert(raw.take(cut) =~= prefix);
    assert(raw.subrange(cut, raw.len() as int) =~= file.separator);
    assert(search::ends_with(raw, file.separator));
}

/// Anything but a literal or a template in a call of a translator makes its whole scope dynamic.
pub proof fn values_make_scopes_dynamic(
    file: analysis::SourceView,
    i: int,
    callee: Seq<char>,
    first: int,
    k: int,
)
    requires
        is_call(file, i, callee, first),
        scoping::is_used_by(file.bindings(), k, callee, file.tree[i].start),
        file.literal(first) is None,
        file.tree[first].kind != "template_string"@,
    ensures
        match file.bindings()[k].scope {
            Some(scope) => file.call_occurrence(file.bindings(), i) matches Some(found) && found.key
                == scope && found.kind == OccurrenceKind::DynamicScope && found.namespace
                == file.bindings()[k].namespace && found.uri == file.uri && found.range == (
                file.tree[first].start,
                file.tree[first].start,
            ),
            None => file.call_occurrence(file.bindings(), i) is None,
        },
{
    scoping::the_last_translator_is_used(file.bindings(), callee, file.tree[i].start, k);
    assert(file.call(i) == Some((callee, first)));
}

/// A call of `useTranslation` with the option `keyPrefix` declares that scope.
pub proof fn hooks_declare_scopes(
    file: analysis::SourceView,
    i: int,
    function: int,
    prefix: int,
    scope: Seq<char>,
)
    requires
        file.tree[i].kind == "call_expression"@,
        syntax::field_child(file.tree, i, "function"@) == Some(function),
        syntax::node_text(file.tree, file.text, function) == Some("useTranslation"@),
        file.option(i, "keyPrefix"@) == Some(prefix),
        file.literal(prefix) == Some(scope),
        key::is_key(scope, file.separator),
        file.hook_namespace(i) is Some || file.default_namespace is None,
    ensures
        file.prefix_declaration(i) matches Some(found) && found.key == scope && found.kind
            == OccurrenceKind::ScopeDeclaration && found.range == file.content(prefix)
            && found.namespace == file.hook_namespace(i) && found.uri == file.uri,
{
}

/// Whether node `i` names what an occurrence says: by a call, by the options of a hook, or by its
/// type or property.
pub open spec fn says(
    file: analysis::SourceView,
    i: int,
    occurrence: source::OccurrenceView,
) -> bool {
    ||| file.tree[i].kind == "call_expression"@ && (file.prefix_declaration(i) == Some(occurrence)
        || file.call_occurrence(file.bindings(), i) == Some(occurrence))
    ||| file.sink_occurrence(i) == Some(occurrence)
}

proof fn lemma_listed<T>(found: Option<T>, item: T)
    ensures
        syntax::listed(found).contains(item) <==> found == Some(item),
{
    if found == Some(item) {
        assert(syntax::listed(found)[0] == item);
    }
}

proof fn lemma_calls(
    file: analysis::SourceView,
    order: Seq<int>,
    n: int,
    occurrence: source::OccurrenceView,
)
    requires
        0 <= n <= order.len(),
    ensures
        file.calls_of(file.bindings(), order, n).contains(occurrence) <==> exists|k: int|
            0 <= k < n && file.tree[#[trigger] order[k]].kind == "call_expression"@ && (
            file.prefix_declaration(order[k]) == Some(occurrence) || file.call_occurrence(
                file.bindings(),
                order[k],
            ) == Some(occurrence)),
        file.sinks_of(order, n).contains(occurrence) <==> exists|k: int|
            0 <= k < n && file.sink_occurrence(#[trigger] order[k]) == Some(occurrence),
    decreases n,
{
    if n > 0 {
        lemma_calls(file, order, n - 1, occurrence);
        let i = order[n - 1];
        let bindings = file.bindings();
        lemma_listed(file.prefix_declaration(i), occurrence);
        lemma_listed(file.call_occurrence(bindings, i), occurrence);
        lemma_listed(file.sink_occurrence(i), occurrence);
        members::lemma_added(
            syntax::listed(file.prefix_declaration(i)),
            syntax::listed(file.call_occurrence(bindings, i)),
            occurrence,
        );
        members::lemma_added(
            file.calls_of(bindings, order, n - 1),
            file.calls_at(bindings, i),
            occurrence,
        );
        members::lemma_added(
            file.sinks_of(order, n - 1),
            syntax::listed(file.sink_occurrence(i)),
            occurrence,
        );
    }
}

/// The occurrences in a file are exactly what its nodes name.
pub proof fn occurrences_come_from_nodes(
    file: analysis::SourceView,
    occurrence: source::OccurrenceView,
)
    ensures
        file.occurrences().contains(occurrence) <==> exists|i: int| #[trigger]
            syntax::walk(file.tree, 0).contains(i) && says(file, i, occurrence),
{
    let order = syntax::walk(file.tree, 0);
    lemma_calls(file, order, order.len() as int, occurrence);
    members::lemma_added(
        file.calls_of(file.bindings(), order, order.len() as int),
        file.sinks_of(order, order.len() as int),
        occurrence,
    );
    if file.calls_of(file.bindings(), order, order.len() as int).contains(occurrence) {
        let k = choose|k: int|
            0 <= k < order.len() && file.tree[#[trigger] order[k]].kind == "call_expression"@ && (
            file.prefix_declaration(order[k]) == Some(occurrence) || file.call_occurrence(
                file.bindings(),
                order[k],
            ) == Some(occurrence));
        assert(order.contains(order[k]) && says(file, order[k], occurrence));
    }
    if file.sinks_of(order, order.len() as int).contains(occurrence) {
        let k = choose|k: int|
            0 <= k < order.len() && file.sink_occurrence(#[trigger] order[k]) == Some(occurrence);
        assert(order.contains(order[k]) && says(file, order[k], occurrence));
    }
    if exists|i: int| #[trigger] order.contains(i) && says(file, i, occurrence) {
        let i = choose|i: int| #[trigger] order.contains(i) && says(file, i, occurrence);
        let k = order.index_of(i);
        assert(order[k] == i);
    }
}

} // verus!
