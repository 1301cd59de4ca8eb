//! Which translators the declarations in source code make.
use crate::analysis;
use crate::key;
use crate::laws::members;
use crate::laws::scoping;
use crate::sort;
use crate::source;
use crate::syntax;
use vstd::prelude::*;

verus! {

/// Whether node `i` declares `pattern` as `value`.
pub open spec fn is_declaration(
    file: analysis::SourceView,
    i: int,
    pattern: int,
    value: int,
) -> bool {
    &&& file.tree[i].kind == "variable_declarator"@
    &&& syntax::field_child(file.tree, i, "name"@) == Some(pattern)
    &&& syntax::field_child(file.tree, i, "value"@) == Some(value)
}

/// Whether `first` is a string literal for the scope with which node `value` calls the scoped
/// function at place `f` of the configuration.
pub open spec fn opens_scope(
    file: analysis::SourceView,
    value: int,
    first: int,
    f: int,
    scope: Seq<char>,
) -> bool {
    &&& file.tree[value].kind == "call_expression"@
    &&& syntax::field_child(file.tree, value, "function"@) matches Some(function)
        && syntax::node_text(file.tree, file.text, function) matches Some(callee)
        && scoping::is_scoped_function(file.scoped_functions, f, callee)
    &&& syntax::field_child(file.tree, value, "arguments"@) matches Some(list) && {
        let all = syntax::named_children(file.tree, list);
        all.len() > 0 && all[0] == first
    }
    &&& file.tree[first].kind == "string"@ || file.tree[first].kind == "string_fragment"@
    &&& file.literal(first) == Some(scope)
    &&& key::is_key(scope, file.separator)
}

/// Whether a translator is visible from the end of node `i` to the end of the block around it.
pub open spec fn is_visible_behind(
    file: analysis::SourceView,
    i: int,
    binding: source::BindingView,
) -> bool {
    binding.visibility.0 == file.tree[i].end && binding.visibility.1
        == file.tree[syntax::container(file.tree, i)].end
}

/// Whether a translator is one of a scope that the function at place `f` opened by node `first`.
pub open spec fn has_scope(
    file: analysis::SourceView,
    first: int,
    f: int,
    scope: Seq<char>,
    binding: source::BindingView,
) -> bool {
    &&& binding.scope == Some(scope)
    &&& binding.namespace == if file.scoped_functions[f].default_namespace is Some {
        file.scoped_functions[f].default_namespace
    } else {
        file.default_namespace
    }
    &&& binding.declaration_range == file.content(first)
}

proof fn lemma_bindings(
    file: analysis::SourceView,
    order: Seq<int>,
    n: int,
    binding: source::BindingView,
)
    requires
        0 <= n <= order.len(),
    ensures
        file.bindings_of(order, n).contains(binding) <==> exists|k: int|
            0 <= k < n && file.bindings_at(#[trigger] order[k]).contains(binding),
    decreases n,
{
    if n > 0 {
        lemma_bindings(file, order, n - 1, binding);
        members::lemma_added(
            file.bindings_of(order, n - 1),
            file.bindings_at(order[n - 1]),
            binding,
        );
    }
}

/// The translators of a file are those that its nodes make, and stand in the order of the places
/// where their scopes are declared.
pub proof fn translators_come_from_nodes(
    file: analysis::SourceView,
    binding: source::BindingView,
    i: int,
    j: int,
)
    ensures
        file.bindings().contains(binding) <==> exists|k: int| #[trigger]
            syntax::walk(file.tree, 0).contains(k) && file.bindings_at(k).contains(binding),
        0 <= i < j < file.bindings().len() ==> file.bindings()[i].declaration_range.0
            <= file.bindings()[j].declaration_range.0,
{
    let order = syntax::walk(file.tree, 0);
    let all = file.bindings_of(order, order.len() as int);
    lemma_bindings(file, order, order.len() as int, binding);
    members::sorted_members::<source::ScopeBinding>(all, binding);
    sort::sorting_orders::<source::ScopeBinding>(all);
    if all.contains(binding) {
        let k = choose|k: int|
            0 <= k < order.len() && file.bindings_at(#[trigger] order[k]).contains(binding);
        assert(order.contains(order[k]));
    }
    if exists|k: int| #[trigger] order.contains(k) && file.bindings_at(k).contains(binding) {
        let k = choose|k: int| #[trigger]
            order.contains(k) && file.bindings_at(k).contains(binding);
        assert(order[order.index_of(k)] == k);
    }
    if 0 <= i < j < file.bindings().len() {
        assert(!<source::ScopeBinding as sort::Ranked>::ahead(
            file.bindings()[j],
            file.bindings()[i],
        ));
    }
}

proof fn lemma_scope_call(
    file: analysis::SourceView,
    value: int,
    first: int,
    f: int,
    scope: Seq<char>,
)
    requires
        opens_scope(file, value, first, f, scope),
    ensures
        file.scope_call(value) == Some((file.scoped_functions[f], first)),
{
    let function = syntax::field_child(file.tree, value, "function"@)->0;
    let callee = syntax::node_text(file.tree, file.text, function)->0;
    scoping::scoped_functions_are_found(file.scoped_functions, callee, f);
    assert(file.call(value) == Some((callee, first)));
}

/// A name that is declared as a call of a scoped function is a translator by each of the methods of
/// the function.
pub proof fn names_get_every_method(
    file: analysis::SourceView,
    i: int,
    pattern: int,
    value: int,
    first: int,
    f: int,
    scope: Seq<char>,
    name: Seq<char>,
    m: int,
)
    requires
        is_declaration(file, i, pattern, value),
        opens_scope(file, value, first, f, scope),
        file.tree[pattern].kind == "identifier"@,
        syntax::node_text(file.tree, file.text, pattern) == Some(name),
        0 <= m < file.scoped_functions[f].translation_methods.len(),
    ensures
        exists|binding: source::BindingView| #[trigger]
            file.bindings_at(i).contains(binding) && binding.name == name && binding.method
                == file.scoped_functions[f].translation_methods[m] && !binding.direct_function
                && has_scope(file, first, f, scope, binding) && is_visible_behind(file, i, binding),
{
    lemma_scope_call(file, value, first, f, scope);
    let found = file.scoped_bindings(i, pattern, value);
    let binding = found[m];
    assert(found.contains(binding));
    members::lemma_added(found, file.hook_bindings(i, pattern, value), binding);
    assert(file.bindings_at(i).contains(binding));
}

/// Whether node `member` of an object pattern takes the property `property` under the name
/// `local`.
pub open spec fn takes_as(
    file: analysis::SourceView,
    member: int,
    property: Seq<char>,
    local: Seq<char>,
) -> bool {
    ||| file.tree[member].kind == "shorthand_property_identifier_pattern"@ && local == property
        && syntax::node_text(file.tree, file.text, member) == Some(property)
    ||| file.tree[member].kind == "pair_pattern"@ && file.field_text(member, "key"@) == Some(
        property,
    ) && file.field_text(member, "value"@) == Some(local)
}

proof fn lemma_member(
    file: analysis::SourceView,
    all: Seq<int>,
    n: int,
    methods: Seq<Seq<char>>,
    base: source::BindingView,
    m: int,
    property: Seq<char>,
    local: Seq<char>,
)
    requires
        0 <= m < n <= all.len(),
        takes_as(file, all[m], property, local),
        methods.contains(property),
    ensures
        file.member_bindings(all, n, methods, base).contains(
            (source::BindingView { name: local, method: property, direct_function: true, ..base }),
        ),
    decreases n,
{
    let wanted = source::BindingView {
        name: local,
        method: property,
        direct_function: true,
        ..base
    };
    let front = file.member_bindings(all, n - 1, methods, base);
    let found = file.member_bindings(all, n, methods, base);
    if m == n - 1 {
        reveal_strlit("shorthand_property_identifier_pattern");
        reveal_strlit("pair_pattern");
        assert("pair_pattern"@.len() != "shorthand_property_identifier_pattern"@.len());
        assert(file.destructured(all[m]) == Some((property, local)));
        assert(found == front.push(wanted));
        assert(found[front.len() as int] == wanted);
    } else {
        lemma_member(file, all, n - 1, methods, base, m, property, local);
        assert(found[front.index_of(wanted)] == wanted);
    }
}

/// A method that is taken out of a call of a scoped function is a translator by its own name.
pub proof fn methods_that_are_taken_out_translate(
    file: analysis::SourceView,
    i: int,
    pattern: int,
    value: int,
    first: int,
    f: int,
    scope: Seq<char>,
    m: int,
    property: Seq<char>,
    local: Seq<char>,
)
    requires
        is_declaration(file, i, pattern, value),
        opens_scope(file, value, first, f, scope),
        file.tree[pattern].kind == "object_pattern"@,
        0 <= m < syntax::named_children(file.tree, pattern).len(),
        takes_as(file, syntax::named_children(file.tree, pattern)[m], property, local),
        file.scoped_functions[f].translation_methods.contains(property),
    ensures
        exists|binding: source::BindingView| #[trigger]
            file.bindings_at(i).contains(binding) && binding.name == local && binding.method
                == property && binding.direct_function && has_scope(file, first, f, scope, binding)
                && is_visible_behind(file, i, binding),
{
    lemma_scope_call(file, value, first, f, scope);
    reveal_strlit("object_pattern");
    reveal_strlit("identifier");
    assert("object_pattern"@.len() != "identifier"@.len());
    let function = file.scoped_functions[f];
    let base = source::BindingView {
        name: Seq::empty(),
        method: Seq::empty(),
        scope: Some(scope),
        namespace: analysis::either(function.default_namespace, file.default_namespace),
        declaration_range: file.content(first),
        visibility: file.visibility(i),
        direct_function: false,
    };
    let all = file.named(pattern);
    lemma_member(
        file,
        all,
        all.len() as int,
        function.translation_methods,
        base,
        m,
        property,
        local,
    );
    let binding = source::BindingView {
        name: local,
        method: property,
        direct_function: true,
        ..base
    };
    let found = file.scoped_bindings(i, pattern, value);
    assert(found.contains(binding));
    members::lemma_added(found, file.hook_bindings(i, pattern, value), binding);
    assert(file.bindings_at(i).contains(binding));
}

/// Whether node `value` calls `useTranslation` in a namespace.
pub open spec fn opens_namespace(
    file: analysis::SourceView,
    value: int,
    namespace: Seq<char>,
) -> bool {
    &&& file.tree[value].kind == "call_expression"@
    &&& syntax::field_child(file.tree, value, "function"@) matches Some(function)
        && syntax::node_text(file.tree, file.text, function) == Some("useTranslation"@)
    &&& match file.argument(value, 0) {
        None => file.default_namespace == Some(namespace),
        Some(first) => if syntax::node_text(file.tree, file.text, first) == Some("undefined"@) {
            file.default_namespace == Some(namespace)
        } else {
            file.literal(first) == Some(namespace)
        },
    }
}

/// Whether a translator is one of a namespace that node `value` opened, with the scope that its
/// options name, if they do.
pub open spec fn has_namespace(
    file: analysis::SourceView,
    value: int,
    namespace: Seq<char>,
    binding: source::BindingView,
) -> bool {
    &&& binding.namespace == Some(namespace)
    &&& match file.option(value, "keyPrefix"@) {
        Some(prefix) => match file.literal(prefix) {
            Some(scope) => binding.scope == if key::is_key(scope, file.separator) {
                Some(scope)
            } else {
                None
            },
            None => binding.scope is None,
        },
        None => binding.scope is None,
    }
}

/// A name that is declared as a call of `useTranslation` is a translator by the method `t`, in the
/// namespace of the call and in the scope that its option `keyPrefix` names; so is a `t` that is
/// taken out of the call.
pub proof fn hooks_make_translators(
    file: analysis::SourceView,
    i: int,
    pattern: int,
    value: int,
    namespace: Seq<char>,
    m: int,
    local: Seq<char>,
)
    requires
        is_declaration(file, i, pattern, value),
        opens_namespace(file, value, namespace),
    ensures
        file.tree[pattern].kind == "identifier"@ && syntax::node_text(
            file.tree,
            file.text,
            pattern,
        ) == Some(local) ==> exists|binding: source::BindingView| #[trigger]
            file.bindings_at(i).contains(binding) && binding.name == local && binding.method
                == "t"@ && !binding.direct_function && has_namespace(
                file,
                value,
                namespace,
                binding,
            ) && is_visible_behind(file, i, binding),
        file.tree[pattern].kind == "object_pattern"@ && 0 <= m < syntax::named_children(
            file.tree,
            pattern,
        ).len() && takes_as(file, syntax::named_children(file.tree, pattern)[m], "t"@, local)
            ==> exists|binding: source::BindingView| #[trigger]
            file.bindings_at(i).contains(binding) && binding.name == local && binding.method
                == "t"@ && binding.direct_function && has_namespace(
                file,
                value,
                namespace,
                binding,
            ) && is_visible_behind(file, i, binding),
{
    let found = file.hook_bindings(i, pattern, value);
    let scoped = file.scoped_bindings(i, pattern, value);
    let methods = seq!["t"@];
    assert(methods[0] == "t"@);
    let base = source::BindingView {
        name: Seq::empty(),
        method: Seq::empty(),
        scope: file.hook_scope(value),
        namespace: file.hook_namespace(value),
        declaration_range: file.hook_declaration(value),
        visibility: file.visibility(i),
        direct_function: false,
    };
    assert(file.hook_namespace(value) == Some(namespace));
    if file.tree[pattern].kind == "identifier"@ && syntax::node_text(file.tree, file.text, pattern)
        == Some(local) {
        let binding = found[0];
        assert(found.contains(binding));
        members::lemma_added(scoped, found, binding);
        assert(file.bindings_at(i).contains(binding));
    }
    if file.tree[pattern].kind == "object_pattern"@ && 0 <= m < syntax::named_children(
        file.tree,
        pattern,
    ).len() && takes_as(file, syntax::named_children(file.tree, pattern)[m], "t"@, local) {
        reveal_strlit("object_pattern");
        reveal_strlit("identifier");
        assert("object_pattern"@.len() != "identifier"@.len());
        let all = file.named(pattern);
        lemma_member(file, all, all.len() as int, methods, base, m, "t"@, local);
        let binding = source::BindingView {
            name: local,
            method: "t"@,
            direct_function: true,
            ..base
        };
        assert(found.contains(binding));
        members::lemma_added(scoped, found, binding);
        assert(file.bindings_at(i).contains(binding));
    }
}

proof fn lemma_only_members(
    file: analysis::SourceView,
    all: Seq<int>,
    n: int,
    methods: Seq<Seq<char>>,
    base: source::BindingView,
    binding: source::BindingView,
)
    requires
        0 <= n <= all.len(),
        file.member_bindings(all, n, methods, base).contains(binding),
    ensures
        methods.contains(binding.method),
        binding == (source::BindingView {
            name: binding.name,
            method: binding.method,
            direct_function: true,
            ..base
        }),
    decreases n,
{
    let found = file.member_bindings(all, n, methods, base);
    if n > 0 {
        let front = file.member_bindings(all, n - 1, methods, base);
        let k = found.index_of(binding);
        if k < front.len() {
            assert(front[k] == binding);
            lemma_only_members(file, all, n - 1, methods, base, binding);
        }
    }
}

proof fn lemma_pattern(
    file: analysis::SourceView,
    pattern: int,
    methods: Seq<Seq<char>>,
    base: source::BindingView,
    binding: source::BindingView,
)
    requires
        file.pattern_bindings(pattern, methods, base).contains(binding),
    ensures
        methods.contains(binding.method),
        binding == (source::BindingView {
            name: binding.name,
            method: binding.method,
            direct_function: file.tree[pattern].kind != "identifier"@,
            ..base
        }),
        file.tree[pattern].kind == "identifier"@ || file.tree[pattern].kind == "object_pattern"@,
{
    let found = file.pattern_bindings(pattern, methods, base);
    if file.kind(pattern) == "identifier"@ {
        let k = found.index_of(binding);
        assert(found[k] == binding);
        assert(methods.contains(methods[k]));
    } else if file.kind(pattern) == "object_pattern"@ {
        let all = file.named(pattern);
        lemma_only_members(file, all, all.len() as int, methods, base, binding);
    }
}

/// Whether a translator is what the declaration of `pattern` as `value` can make: one of the
/// methods of a scoped function in the scope of its call, or `t` in the namespace of a hook.
pub open spec fn is_made_by(
    file: analysis::SourceView,
    value: int,
    binding: source::BindingView,
) -> bool {
    ||| exists|first: int, f: int, scope: Seq<char>| #[trigger]
        opens_scope(file, value, first, f, scope) && has_scope(file, first, f, scope, binding)
            && file.scoped_functions[f].translation_methods.contains(binding.method)
    ||| exists|namespace: Seq<char>| #[trigger]
        opens_namespace(file, value, namespace) && has_namespace(file, value, namespace, binding)
            && binding.method == "t"@
}

/// Only declarations as calls of scoped functions or of `useTranslation` make translators, and
/// these are visible behind the declaration only.
pub proof fn only_declarations_make_translators(
    file: analysis::SourceView,
    i: int,
    binding: source::BindingView,
)
    requires
        file.bindings_at(i).contains(binding),
    ensures
        is_visible_behind(file, i, binding),
        exists|pattern: int, value: int| #[trigger]
            is_declaration(file, i, pattern, value) && is_made_by(file, value, binding)
                && binding.direct_function == (file.tree[pattern].kind != "identifier"@),
{
    let pattern = file.field(i, "name"@)->0;
    let value = file.field(i, "value"@)->0;
    assert(is_declaration(file, i, pattern, value));
    let scoped = file.scoped_bindings(i, pattern, value);
    let hooked = file.hook_bindings(i, pattern, value);
    members::lemma_added(scoped, hooked, binding);
    if scoped.contains(binding) {
        let (function, first) = file.scope_call(value)->0;
        let scope = file.literal(first)->0;
        let (callee, _) = file.call(value)->0;
        scoping::scoped_functions_are_found(file.scoped_functions, callee, 0);
        let f = scoping::scoped_place(file.scoped_functions, callee);
        lemma_pattern(
            file,
            pattern,
            function.translation_methods,
            source::BindingView {
                name: Seq::empty(),
                method: Seq::empty(),
                scope: Some(scope),
                namespace: analysis::either(function.default_namespace, file.default_namespace),
                declaration_range: file.content(first),
                visibility: file.visibility(i),
                direct_function: false,
            },
            binding,
        );
        assert(opens_scope(file, value, first, f, scope));
    } else {
        lemma_pattern(
            file,
            pattern,
            seq!["t"@],
            source::BindingView {
                name: Seq::empty(),
                method: Seq::empty(),
                scope: file.hook_scope(value),
                namespace: file.hook_namespace(value),
                declaration_range: file.hook_declaration(value),
                visibility: file.visibility(i),
                direct_function: false,
            },
            binding,
        );
        assert(opens_namespace(file, value, file.hook_namespace(value)->0));
    }
}

proof fn lemma_parent(tree: Seq<syntax::NodeView>, i: int, j: int)
    requires
        0 <= j <= i < tree.len(),
    ensures
        match syntax::parent_before(tree, i, j) {
            Some(p) => 0 <= p < j && tree[p].depth < tree[i].depth && forall|k: int|
                p < k < j ==> (#[trigger] tree[k]).depth >= tree[i].depth,
            None => forall|k: int| 0 <= k < j ==> (#[trigger] tree[k]).depth >= tree[i].depth,
        },
    decreases j,
{
    if j > 0 && tree[j - 1].depth >= tree[i].depth {
        lemma_parent(tree, i, j - 1);
    }
}

/// Whether node `p` encloses node `i`: it is less deep than `i` and all that stands between.
pub open spec fn encloses(tree: Seq<syntax::NodeView>, p: int, i: int) -> bool {
    &&& 0 <= p < i < tree.len()
    &&& forall|k: int| p < k <= i ==> (#[trigger] tree[k]).depth > tree[p].depth
}

/// Whether node `i` is a block.
pub open spec fn is_block(tree: Seq<syntax::NodeView>, i: int) -> bool {
    tree[i].kind == "statement_block"@ || tree[i].kind == "program"@
}

/// The block that ends the visibility of a declaration encloses it, and no block lies between the
/// two; where no block encloses it, no node encloses what ends it.
pub proof fn declarations_are_visible_in_their_block(tree: Seq<syntax::NodeView>, i: int)
    requires
        0 <= i < tree.len(),
    ensures
        ({
            let block = syntax::container(tree, i);
            &&& block == i || encloses(tree, block, i)
            &&& forall|p: int|
                block < p && #[trigger] encloses(tree, p, i) ==> !is_block(tree, p)
            &&& (block < i && is_block(tree, block)) || forall|p: int|
                !#[trigger] encloses(tree, p, block)
        }),
    decreases i,
{
    lemma_parent(tree, i, i);
    let block = syntax::container(tree, i);
    match syntax::parent(tree, i) {
        None => {
            assert forall|p: int| !#[trigger] encloses(tree, p, i) by {
                if encloses(tree, p, i) {
                    assert(tree[p].depth >= tree[i].depth);
                    assert(tree[i].depth > tree[p].depth);
                }
            }
        },
        Some(parent) => {
            assert(encloses(tree, parent, i));
            assert forall|p: int| parent < p implies !#[trigger] encloses(tree, p, i) by {
                if encloses(tree, p, i) {
                    assert(tree[p].depth >= tree[i].depth);
                    assert(tree[i].depth > tree[p].depth);
                }
            }
            if !is_block(tree, parent) {
                declarations_are_visible_in_their_block(tree, parent);
                assert(block == syntax::container(tree, parent));
                assert forall|k: int| block < k <= i implies (#[trigger] tree[k]).depth
                    > tree[block].depth by {
                    if k > parent {
                        assert(tree[k].depth > tree[parent].depth);
                        if block < parent {
                            assert(tree[parent].depth > tree[block].depth);
                        }
                    }
                }
                assert forall|p: int|
                    block < p && #[trigger] encloses(tree, p, i) implies !is_block(tree, p) by {
                    if p < parent {
                        assert forall|k: int| p < k <= parent implies (#[trigger] tree[k]).depth
                            > tree[p].depth by {}
                        assert(encloses(tree, p, parent));
                    }
                }
            }
        },
    }
}

} // verus!
