//! Finding, in the syntax tree of a source file, the bindings that carry a translation scope and
//! the places that name keys.
use crate::config;
use crate::config::{FullKeyFunctionConfig, ScopedFunctionConfig};
use crate::key;
use crate::key::CanonicalKey;
use crate::search;
use crate::sort;
use crate::source;
use crate::source::{
    OccurrenceKind, ScopeBinding, SourceOccurrence, TranslationArgument, TranslationArguments,
};
use crate::syntax;
use crate::syntax::SyntaxNode;
use crate::text;
use crate::ByteRange;
use vstd::prelude::*;

verus! {

/// A source file with its syntax tree and the JSON strings that nodes of it are, and what the
/// configuration says about it.
pub struct SourceFile<'a> {
    pub uri: &'a str,
    pub text: &'a str,
    pub nodes: &'a [SyntaxNode],
    pub strings: &'a [Option<String>],
    pub separator: &'a str,
    pub scoped_functions: &'a [ScopedFunctionConfig],
    pub full_key_functions: &'a [FullKeyFunctionConfig],
    pub key_types: &'a [String],
    pub key_props: &'a [String],
    pub default_namespace: Option<&'a str>,
}

/// What a `SourceFile` holds.
pub struct SourceView {
    pub uri: Seq<char>,
    pub text: Seq<char>,
    pub tree: Seq<syntax::NodeView>,
    pub strings: Seq<Option<Seq<char>>>,
    pub separator: Seq<char>,
    pub scoped_functions: Seq<config::ScopedFunctionView>,
    pub full_key_functions: Seq<config::FullKeyFunctionView>,
    pub key_types: Seq<Seq<char>>,
    pub key_props: Seq<Seq<char>>,
    pub default_namespace: Option<Seq<char>>,
}

impl<'a> DeepView for SourceFile<'a> {
    type V = SourceView;

    open spec fn deep_view(&self) -> SourceView {
        SourceView {
            uri: self.uri@,
            text: self.text@,
            tree: self.nodes.deep_view(),
            strings: self.strings.deep_view(),
            separator: self.separator@,
            scoped_functions: self.scoped_functions.deep_view(),
            full_key_functions: self.full_key_functions.deep_view(),
            key_types: self.key_types.deep_view(),
            key_props: self.key_props.deep_view(),
            default_namespace: self.default_namespace.deep_view(),
        }
    }
}

/// The text of a quoted string: in double quotes as JSON reads it, in single quotes with `\'` and
/// then `\\` undone.
pub open spec fn unquoted(raw: Seq<char>, decoded: Option<Seq<char>>) -> Option<Seq<char>> {
    if raw.len() < 2 || raw[0] != raw.last() {
        None
    } else if raw[0] == '"' {
        decoded
    } else if raw[0] == '\'' {
        let inner = raw.subrange(1, raw.len() - 1);
        Some(
            search::replaced(
                search::replaced(inner, seq!['\\', '\''], seq!['\'']),
                seq!['\\', '\\'],
                seq!['\\'],
            ),
        )
    } else {
        None
    }
}

/// The first of two that there is.
pub open spec fn either<T>(first: Option<T>, second: Option<T>) -> Option<T> {
    match first {
        Some(_) => first,
        None => second,
    }
}

/// A text, or the empty one.
pub open spec fn or_empty(text: Option<Seq<char>>) -> Seq<char> {
    match text {
        Some(text) => text,
        None => Seq::empty(),
    }
}

impl SourceView {
    pub open spec fn kind(self, i: int) -> Seq<char> {
        self.tree[i].kind
    }

    /// The text that node `i` covers.
    pub open spec fn text_at(self, i: int) -> Option<Seq<char>> {
        syntax::node_text(self.tree, self.text, i)
    }

    /// The child of node `i` that fills the field `name`.
    pub open spec fn field(self, i: int, name: Seq<char>) -> Option<int> {
        syntax::field_child(self.tree, i, name)
    }

    /// The text of the child of node `i` that fills the field `name`.
    pub open spec fn field_text(self, i: int, name: Seq<char>) -> Option<Seq<char>> {
        match self.field(i, name) {
            Some(child) => self.text_at(child),
            None => None,
        }
    }

    /// The named children of node `i`.
    pub open spec fn named(self, i: int) -> Seq<int> {
        syntax::named_children(self.tree, i)
    }

    /// The named child of node `i` at place `n`.
    pub open spec fn nth(self, i: int, n: int) -> Option<int> {
        if 0 <= n < self.named(i).len() {
            Some(self.named(i)[n])
        } else {
            None
        }
    }

    /// The range of node `i`.
    pub open spec fn span(self, i: int) -> (usize, usize) {
        (self.tree[i].start, self.tree[i].end)
    }

    /// The range of node `i` without its quotes.
    pub open spec fn content(self, i: int) -> (usize, usize) {
        syntax::inner_range(self.tree[i])
    }

    /// The JSON string that node `i` is.
    pub open spec fn decoded(self, i: int) -> Option<Seq<char>> {
        if i < self.strings.len() {
            self.strings[i]
        } else {
            None
        }
    }

    /// The text that the string literal `i` stands for.
    pub open spec fn literal(self, i: int) -> Option<Seq<char>> {
        match self.text_at(i) {
            Some(raw) => unquoted(raw, self.decoded(i)),
            None => None,
        }
    }

    /// Whether node `i` calls the function `name`.
    pub open spec fn calls(self, i: int, name: Seq<char>) -> bool {
        self.kind(i) == "call_expression"@ && self.field_text(i, "function"@) == Some(name)
    }

    /// The argument of the call `i` at place `n`.
    pub open spec fn argument(self, i: int, n: int) -> Option<int> {
        match self.field(i, "arguments"@) {
            Some(list) => self.nth(list, n),
            None => None,
        }
    }

    /// The function that node `i` calls and the first argument.
    pub open spec fn call(self, i: int) -> Option<(Seq<char>, int)> {
        if self.kind(i) != "call_expression"@ {
            None
        } else {
            match (self.field_text(i, "function"@), self.argument(i, 0)) {
                (Some(callee), Some(first)) => Some((callee, first)),
                _ => None,
            }
        }
    }

    /// The name that the property key `i` stands for: its text, without quotes where it has them.
    pub open spec fn property_name(self, i: int) -> Option<Seq<char>> {
        match self.text_at(i) {
            None => None,
            Some(raw) => if self.kind(i) == "string"@ {
                text::byte_slice(raw, 1, text::byte_len(raw) - 1)
            } else {
                Some(raw)
            },
        }
    }

    /// The name of the key of the pair `i`.
    pub open spec fn pair_name(self, i: int) -> Option<Seq<char>> {
        match self.field(i, "key"@) {
            Some(key) => self.property_name(key),
            None => None,
        }
    }

    /// The value of the first pair called `name` among `members[from..]`.
    pub open spec fn property_from(self, members: Seq<int>, name: Seq<char>, from: int) -> Option<
        int,
    >
        decreases members.len() - from,
    {
        if from >= members.len() {
            None
        } else if self.kind(members[from]) == "pair"@ && self.pair_name(members[from]) == Some(
            name,
        ) {
            self.field(members[from], "value"@)
        } else {
            self.property_from(members, name, from + 1)
        }
    }

    /// The value of the property `name` of the object `i`.
    pub open spec fn property(self, i: int, name: Seq<char>) -> Option<int> {
        if self.kind(i) == "object"@ {
            self.property_from(self.named(i), name, 0)
        } else {
            None
        }
    }

    /// The value of the property `name` of the object in the second argument of the call `i`.
    pub open spec fn option(self, i: int, name: Seq<char>) -> Option<int> {
        match self.argument(i, 1) {
            Some(options) => self.property(options, name),
            None => None,
        }
    }

    /// The string that is the property `name` of the object in the second argument of the call.
    pub open spec fn option_text(self, i: int, name: Seq<char>) -> Option<Seq<char>> {
        match self.option(i, name) {
            Some(value) => self.literal(value),
            None => None,
        }
    }

    /// The namespace that the hook call `i` opens.
    pub open spec fn hook_namespace(self, i: int) -> Option<Seq<char>> {
        match self.argument(i, 0) {
            None => self.default_namespace,
            Some(first) => if self.text_at(first) == Some("undefined"@) {
                self.default_namespace
            } else {
                self.literal(first)
            },
        }
    }

    /// The scope that the hook call `i` opens.
    pub open spec fn hook_scope(self, i: int) -> Option<Seq<char>> {
        match self.option_text(i, "keyPrefix"@) {
            Some(prefix) => key::canonical(prefix, self.separator),
            None => None,
        }
    }

    /// Where the hook call `i` names its namespace, or its start where it names none.
    pub open spec fn hook_declaration(self, i: int) -> (usize, usize) {
        match self.argument(i, 0) {
            Some(first) => if self.literal(first) is Some {
                self.content(first)
            } else {
                (self.tree[i].start, self.tree[i].start)
            },
            None => (self.tree[i].start, self.tree[i].start),
        }
    }
}

/// A binding whose name and method are still to come.
pub open spec fn named_binding(
    base: source::BindingView,
    name: Seq<char>,
    method: Seq<char>,
    direct_function: bool,
) -> source::BindingView {
    source::BindingView { name, method, direct_function, ..base }
}

impl SourceView {
    /// The property that the member `i` of an object pattern takes and the name that it gets.
    pub open spec fn destructured(self, i: int) -> Option<(Seq<char>, Seq<char>)> {
        if self.kind(i) == "shorthand_property_identifier_pattern"@ {
            Some((or_empty(self.text_at(i)), or_empty(self.text_at(i))))
        } else if self.kind(i) == "pair_pattern"@ {
            Some((or_empty(self.field_text(i, "key"@)), or_empty(self.field_text(i, "value"@))))
        } else {
            None
        }
    }

    /// The bindings of the first `n` members of an object pattern.
    pub open spec fn member_bindings(
        self,
        members: Seq<int>,
        n: int,
        methods: Seq<Seq<char>>,
        base: source::BindingView,
    ) -> Seq<source::BindingView>
        decreases n,
    {
        if n <= 0 {
            Seq::empty()
        } else {
            let front = self.member_bindings(members, n - 1, methods, base);
            match self.destructured(members[n - 1]) {
                Some((property, local)) => if methods.contains(property) {
                    front.push(named_binding(base, local, property, true))
                } else {
                    front
                },
                None => front,
            }
        }
    }

    /// The bindings that the pattern `i` makes: one for each method of an object with a name, or
    /// one for each method that an object pattern takes.
    pub open spec fn pattern_bindings(
        self,
        i: int,
        methods: Seq<Seq<char>>,
        base: source::BindingView,
    ) -> Seq<source::BindingView> {
        if self.kind(i) == "identifier"@ {
            match self.text_at(i) {
                Some(name) => methods.map_values(
                    |method: Seq<char>| named_binding(base, name, method, false),
                ),
                None => Seq::empty(),
            }
        } else if self.kind(i) == "object_pattern"@ {
            self.member_bindings(self.named(i), self.named(i).len() as int, methods, base)
        } else {
            Seq::empty()
        }
    }

    /// Where a binding that the declarator `i` makes is visible: from its end to the end of the
    /// block around it.
    pub open spec fn visibility(self, i: int) -> (usize, usize) {
        (self.tree[i].end, self.tree[syntax::container(self.tree, i)].end)
    }

    /// The function that a call of a configured scoped function with a literal scope is of, and
    /// the literal.
    pub open spec fn scope_call(self, i: int) -> Option<(config::ScopedFunctionView, int)> {
        match self.call(i) {
            None => None,
            Some((callee, first)) => if self.kind(first) == "string"@ || self.kind(first)
                == "string_fragment"@ {
                match config::scoped_from(self.scoped_functions, callee, 0) {
                    Some(function) => Some((function, first)),
                    None => None,
                }
            } else {
                None
            },
        }
    }

    /// The bindings that the declarator `i` makes of a call to a scoped function.
    pub open spec fn scoped_bindings(self, i: int, pattern: int, value: int) -> Seq<
        source::BindingView,
    > {
        match self.scope_call(value) {
            None => Seq::empty(),
            Some((function, literal)) => match self.literal(literal) {
                None => Seq::empty(),
                Some(scope) => if key::is_key(scope, self.separator) {
                    self.pattern_bindings(
                        pattern,
                        function.translation_methods,
                        source::BindingView {
                            name: Seq::empty(),
                            method: Seq::empty(),
                            scope: Some(scope),
                            namespace: either(function.default_namespace, self.default_namespace),
                            declaration_range: self.content(literal),
                            visibility: self.visibility(i),
                            direct_function: false,
                        },
                    )
                } else {
                    Seq::empty()
                },
            },
        }
    }

    /// The bindings that the declarator `i` makes of a call to `useTranslation`.
    pub open spec fn hook_bindings(self, i: int, pattern: int, value: int) -> Seq<
        source::BindingView,
    > {
        if self.calls(value, "useTranslation"@) && self.hook_namespace(value) is Some {
            self.pattern_bindings(
                pattern,
                seq!["t"@],
                source::BindingView {
                    name: Seq::empty(),
                    method: Seq::empty(),
                    scope: self.hook_scope(value),
                    namespace: self.hook_namespace(value),
                    declaration_range: self.hook_declaration(value),
                    visibility: self.visibility(i),
                    direct_function: false,
                },
            )
        } else {
            Seq::empty()
        }
    }

    /// The bindings that node `i` makes.
    pub open spec fn bindings_at(self, i: int) -> Seq<source::BindingView> {
        if self.kind(i) == "variable_declarator"@ {
            match (self.field(i, "name"@), self.field(i, "value"@)) {
                (Some(pattern), Some(value)) => self.scoped_bindings(i, pattern, value)
                    + self.hook_bindings(i, pattern, value),
                _ => Seq::empty(),
            }
        } else {
            Seq::empty()
        }
    }

    /// The bindings that the first `n` of `order` make.
    pub open spec fn bindings_of(self, order: Seq<int>, n: int) -> Seq<source::BindingView>
        decreases n,
    {
        if n <= 0 {
            Seq::empty()
        } else {
            self.bindings_of(order, n - 1) + self.bindings_at(order[n - 1])
        }
    }

    /// The bindings of the file, in the order in which their scopes are declared.
    pub open spec fn bindings(self) -> Seq<source::BindingView> {
        let order = syntax::walk(self.tree, 0);
        sort::sorted::<ScopeBinding>(self.bindings_of(order, order.len() as int))
    }
}

/// Whether `binding` is visible at `at` and `callee` uses it.
pub open spec fn binds(binding: source::BindingView, callee: Seq<char>, at: usize) -> bool {
    &&& binding.visibility.0 <= at <= binding.visibility.1
    &&& callee == if binding.direct_function {
        binding.name
    } else {
        binding.name + "."@ + binding.method
    }
}

/// The last of the first `n` bindings that is visible at `at` and that `callee` uses.
pub open spec fn resolved(
    bindings: Seq<source::BindingView>,
    n: int,
    callee: Seq<char>,
    at: usize,
) -> Option<source::BindingView>
    decreases n,
{
    if n <= 0 {
        None
    } else if binds(bindings[n - 1], callee, at) {
        Some(bindings[n - 1])
    } else {
        resolved(bindings, n - 1, callee, at)
    }
}

impl SourceView {
    /// A place in this file that names a key and says no more.
    pub open spec fn mention(
        self,
        range: (usize, usize),
        key: Seq<char>,
        namespace: Option<Seq<char>>,
        kind: OccurrenceKind,
    ) -> source::OccurrenceView {
        source::OccurrenceView {
            uri: self.uri,
            range,
            key,
            namespace,
            kind,
            scope: None,
            relative_key: None,
            arguments: None,
        }
    }

    /// The value that the member `i` of an options object supplies, where its name is plain.
    pub open spec fn supplied(self, i: int) -> Option<source::ArgumentView> {
        if self.kind(i) == "pair"@ {
            match self.field(i, "key"@) {
                None => None,
                Some(key) => {
                    let kind = self.kind(key);
                    if kind == "property_identifier"@ || kind == "identifier"@ || kind
                        == "string"@ {
                        match self.property_name(key) {
                            None => None,
                            Some(name) => Some(
                                source::ArgumentView {
                                    name,
                                    range: if kind == "string"@ {
                                        self.content(key)
                                    } else {
                                        self.span(key)
                                    },
                                },
                            ),
                        }
                    } else {
                        None
                    }
                },
            }
        } else if self.kind(i) == "shorthand_property_identifier"@ {
            match self.text_at(i) {
                Some(name) => Some(source::ArgumentView { name, range: self.span(i) }),
                None => None,
            }
        } else {
            None
        }
    }

    /// What the first `n` members of an options object supply.
    pub open spec fn supplied_by(self, members: Seq<int>, n: int) -> source::ArgumentsView
        decreases n,
    {
        if n <= 0 {
            source::ArgumentsView { supplied: Seq::empty(), uncertain: false }
        } else {
            let front = self.supplied_by(members, n - 1);
            match self.supplied(members[n - 1]) {
                Some(argument) => source::ArgumentsView {
                    supplied: front.supplied.push(argument),
                    uncertain: front.uncertain,
                },
                None => source::ArgumentsView { supplied: front.supplied, uncertain: true },
            }
        }
    }

    /// What the translation call `i` supplies.
    pub open spec fn arguments(self, i: int) -> source::ArgumentsView {
        match self.argument(i, 1) {
            None => source::ArgumentsView { supplied: Seq::empty(), uncertain: false },
            Some(options) => if self.kind(options) == "object"@ {
                self.supplied_by(self.named(options), self.named(options).len() as int)
            } else {
                source::ArgumentsView { supplied: Seq::empty(), uncertain: true }
            },
        }
    }

    /// The scope that the hook call `i` declares.
    pub open spec fn prefix_declaration(self, i: int) -> Option<source::OccurrenceView> {
        if !self.calls(i, "useTranslation"@) {
            None
        } else {
            match (self.option(i, "keyPrefix"@), self.hook_scope(i)) {
                (Some(prefix), Some(scope)) => if self.hook_namespace(i) is Some
                    || self.default_namespace is None {
                    Some(
                        self.mention(
                            self.content(prefix),
                            scope,
                            self.hook_namespace(i),
                            OccurrenceKind::ScopeDeclaration,
                        ),
                    )
                } else {
                    None
                },
                _ => None,
            }
        }
    }

    /// Whether `callee` takes whole keys.
    pub open spec fn takes_full_keys(self, callee: Seq<char>) -> bool {
        callee == "i18next.t"@ || config::full_key_from(self.full_key_functions, callee, 0) is Some
    }

    /// The namespace that the configuration gives the keys that `callee` takes.
    pub open spec fn function_namespace(self, callee: Seq<char>) -> Option<Seq<char>> {
        match config::full_key_from(self.full_key_functions, callee, 0) {
            Some(function) => function.default_namespace,
            None => None,
        }
    }

    /// The namespace of the keys that the call `i` of `callee` takes.
    pub open spec fn full_key_namespace(self, i: int, callee: Seq<char>) -> Option<Seq<char>> {
        either(
            if callee == "i18next.t"@ {
                self.option_text(i, "ns"@)
            } else {
                None
            },
            either(self.function_namespace(callee), self.default_namespace),
        )
    }

    /// The key that `relative` stands for under the scope of `binding`, or by itself.
    pub open spec fn scoped_key(
        self,
        binding: source::BindingView,
        relative: Seq<char>,
    ) -> Option<Seq<char>> {
        either(
            match binding.scope {
                Some(scope) => key::joined_key(scope, relative, self.separator),
                None => None,
            },
            key::canonical(relative, self.separator),
        )
    }

    /// The key that the call `i` of a full-key function names by the literal `value` at `first`.
    pub open spec fn full_key_occurrence(
        self,
        i: int,
        callee: Seq<char>,
        first: int,
        value: Seq<char>,
    ) -> Option<source::OccurrenceView> {
        if !key::is_key(value, self.separator) {
            None
        } else {
            let (namespace, key) = match key::namespace_and_key(value, self.separator) {
                Some((namespace, key)) => (Some(namespace), key),
                None => (self.full_key_namespace(i, callee), value),
            };
            Some(
                source::OccurrenceView {
                    arguments: Some(self.arguments(i)),
                    ..self.mention(self.content(first), key, namespace, OccurrenceKind::FullKey)
                },
            )
        }
    }

    /// The key that the call `i` through `binding` names by the literal `value` at `first`.
    pub open spec fn scoped_occurrence(
        self,
        i: int,
        binding: source::BindingView,
        first: int,
        value: Seq<char>,
    ) -> Option<source::OccurrenceView> {
        let (namespace, relative) = match key::namespace_and_key(value, self.separator) {
            Some((namespace, key)) => (Some(namespace), key),
            None => (binding.namespace, value),
        };
        match self.scoped_key(binding, relative) {
            None => None,
            Some(key) => Some(
                source::OccurrenceView {
                    scope: binding.scope,
                    relative_key: Some(relative),
                    arguments: Some(self.arguments(i)),
                    ..self.mention(self.content(first), key, namespace, OccurrenceKind::ScopedKey)
                },
            ),
        }
    }

    /// What the call `i` of `callee` names by the literal `value` at `first`.
    pub open spec fn literal_occurrence(
        self,
        bindings: Seq<source::BindingView>,
        i: int,
        callee: Seq<char>,
        first: int,
        value: Seq<char>,
    ) -> Option<source::OccurrenceView> {
        match config::scoped_from(self.scoped_functions, callee, 0) {
            Some(function) => match key::canonical(value, self.separator) {
                None => None,
                Some(scope) => Some(
                    self.mention(
                        self.content(first),
                        scope,
                        either(function.default_namespace, self.default_namespace),
                        OccurrenceKind::ScopeDeclaration,
                    ),
                ),
            },
            None => if callee == "useTranslation"@ {
                match key::canonical(value, self.separator) {
                    None => None,
                    Some(key) => Some(
                        self.mention(
                            self.content(first),
                            key,
                            Some(value),
                            OccurrenceKind::NamespaceDeclaration,
                        ),
                    ),
                }
            } else if self.takes_full_keys(callee) {
                self.full_key_occurrence(i, callee, first, value)
            } else {
                match resolved(bindings, bindings.len() as int, callee, self.tree[i].start) {
                    Some(binding) => self.scoped_occurrence(i, binding, first, value),
                    None => None,
                }
            },
        }
    }

    /// The scope that the template `i` begins with, before a separator and a value, and its range.
    pub open spec fn template_prefix(self, i: int) -> Option<(Seq<char>, (usize, usize))> {
        if self.kind(i) != "template_string"@ {
            None
        } else {
            match (self.nth(i, 0), self.nth(i, 1)) {
                (Some(fragment), Some(value)) => if self.kind(fragment) == "string_fragment"@
                    && self.kind(value) == "template_substitution"@ {
                    match self.text_at(fragment) {
                        None => None,
                        Some(raw) => {
                            let prefix = raw.take(raw.len() - self.separator.len());
                            if search::ends_with(raw, self.separator) && key::is_key(
                                prefix,
                                self.separator,
                            ) {
                                Some(
                                    (
                                        prefix,
                                        (
                                            self.tree[fragment].start,
                                            syntax::before(
                                                self.tree[fragment].end,
                                                text::byte_len(self.separator) as int,
                                            ),
                                        ),
                                    ),
                                )
                            } else {
                                None
                            }
                        },
                    }
                } else {
                    None
                },
                _ => None,
            }
        }
    }

    /// What the call `i` of `callee` names by a template that begins with `prefix`.
    pub open spec fn template_occurrence(
        self,
        bindings: Seq<source::BindingView>,
        i: int,
        callee: Seq<char>,
        prefix: Seq<char>,
        range: (usize, usize),
    ) -> Option<source::OccurrenceView> {
        let binding = resolved(bindings, bindings.len() as int, callee, self.tree[i].start);
        let namespace = either(
            match binding {
                Some(binding) => binding.namespace,
                None => None,
            },
            either(self.function_namespace(callee), self.default_namespace),
        );
        if self.takes_full_keys(callee) {
            match key::canonical(prefix, self.separator) {
                None => None,
                Some(key) => Some(
                    self.mention(range, key, namespace, OccurrenceKind::DynamicScope),
                ),
            }
        } else {
            match binding {
                None => None,
                Some(binding) => match self.scoped_key(binding, prefix) {
                    None => None,
                    Some(key) => Some(
                        source::OccurrenceView {
                            scope: binding.scope,
                            relative_key: Some(prefix),
                            ..self.mention(range, key, namespace, OccurrenceKind::DynamicScope)
                        },
                    ),
                },
            }
        }
    }

    /// What the call `i` of `callee` names by a value that is no literal: all of the scope.
    pub open spec fn dynamic_occurrence(
        self,
        bindings: Seq<source::BindingView>,
        i: int,
        callee: Seq<char>,
        first: int,
    ) -> Option<source::OccurrenceView> {
        match resolved(bindings, bindings.len() as int, callee, self.tree[i].start) {
            None => None,
            Some(binding) => match binding.scope {
                None => None,
                Some(scope) => Some(
                    self.mention(
                        (self.tree[first].start, self.tree[first].start),
                        scope,
                        binding.namespace,
                        OccurrenceKind::DynamicScope,
                    ),
                ),
            },
        }
    }

    /// What the call `i` names by its first argument.
    pub open spec fn call_occurrence(self, bindings: Seq<source::BindingView>, i: int) -> Option<
        source::OccurrenceView,
    > {
        match self.call(i) {
            None => None,
            Some((callee, first)) => match self.literal(first) {
                Some(value) => self.literal_occurrence(bindings, i, callee, first, value),
                None => match self.template_prefix(first) {
                    Some((prefix, range)) => self.template_occurrence(
                        bindings,
                        i,
                        callee,
                        prefix,
                        range,
                    ),
                    None => if self.kind(first) == "template_string"@ {
                        None
                    } else {
                        self.dynamic_occurrence(bindings, i, callee, first)
                    },
                },
            },
        }
    }

    /// What node `i` names, where it is a call.
    pub open spec fn calls_at(self, bindings: Seq<source::BindingView>, i: int) -> Seq<
        source::OccurrenceView,
    > {
        if self.kind(i) == "call_expression"@ {
            syntax::listed(self.prefix_declaration(i)) + syntax::listed(self.call_occurrence(bindings, i))
        } else {
            Seq::empty()
        }
    }

    /// What the first `n` of `order` name by calls.
    pub open spec fn calls_of(
        self,
        bindings: Seq<source::BindingView>,
        order: Seq<int>,
        n: int,
    ) -> Seq<source::OccurrenceView>
        decreases n,
    {
        if n <= 0 {
            Seq::empty()
        } else {
            self.calls_of(bindings, order, n - 1) + self.calls_at(bindings, order[n - 1])
        }
    }

    /// Whether node `i` is the name of a configured type, by itself or behind a dot.
    pub open spec fn names_key_type(self, i: int) -> bool {
        &&& self.kind(i) == "type_identifier"@ || self.kind(i) == "nested_type_identifier"@
            || self.kind(i) == "identifier"@
        &&& self.text_at(i) matches Some(name) && exists|k: int|
            0 <= k < self.key_types.len() && is_type_name(name, #[trigger] self.key_types[k])
    }

    /// Whether the type `i` holds the name of a configured type.
    pub open spec fn has_key_type(self, i: int) -> bool {
        exists|k: int|
            0 <= k < syntax::walk(self.tree, i).len() && self.names_key_type(
                #[trigger] syntax::walk(self.tree, i)[k],
            )
    }

    /// The string literal that the expression `i` is, in braces or brackets or without.
    pub open spec fn literal_in(self, i: int) -> Option<int>
        decreases 2 * (self.tree.len() - i),
    {
        if i >= self.tree.len() {
            None
        } else if self.kind(i) == "string"@ {
            Some(i)
        } else if self.kind(i) == "jsx_expression"@ || self.kind(i)
            == "parenthesized_expression"@ {
            self.literal_inside(i, i + 1)
        } else {
            None
        }
    }

    /// The first string literal that a named child of `p` from node `j` on is.
    pub open spec fn literal_inside(self, p: int, j: int) -> Option<int>
        decreases 2 * (self.tree.len() - j) + 1,
    {
        if syntax::closed_at(self.tree, p, j) {
            None
        } else if syntax::child_at(self.tree, p, j) && self.tree[j].named {
            either(self.literal_in(j), self.literal_inside(p, j + 1))
        } else {
            self.literal_inside(p, j + 1)
        }
    }

    /// The literal in an expression, where there is one.
    pub open spec fn literal_of(self, expression: Option<int>) -> Option<int> {
        match expression {
            Some(i) => self.literal_in(i),
            None => None,
        }
    }

    /// Whether a name is one of the configured properties.
    pub open spec fn is_key_prop(self, name: Option<Seq<char>>) -> bool {
        name matches Some(name) && self.key_props.contains(name)
    }

    /// The literal that node `i` makes a key by its type or its property.
    pub open spec fn sink(self, i: int) -> Option<int> {
        let kind = self.kind(i);
        if kind == "variable_declarator"@ {
            if self.field(i, "type"@) matches Some(ty) && self.has_key_type(ty) {
                self.literal_of(self.field(i, "value"@))
            } else {
                None
            }
        } else if kind == "as_expression"@ || kind == "satisfies_expression"@ || kind
            == "type_assertion"@ {
            if either(self.field(i, "type"@), self.nth(i, self.named(i).len() - 1)) matches Some(ty)
                && self.has_key_type(ty) {
                self.literal_of(either(self.field(i, "expression"@), self.nth(i, 0)))
            } else {
                None
            }
        } else if kind == "jsx_attribute"@ {
            if either(self.field(i, "name"@), self.nth(i, 0)) matches Some(name)
                && self.is_key_prop(self.text_at(name)) {
                self.literal_of(either(self.field(i, "value"@), self.nth(i, 1)))
            } else {
                None
            }
        } else if kind == "pair"@ {
            if self.is_key_prop(self.pair_name(i)) {
                self.literal_of(self.field(i, "value"@))
            } else {
                None
            }
        } else {
            None
        }
    }

    /// The key that node `i` names by its type or its property.
    pub open spec fn sink_occurrence(self, i: int) -> Option<source::OccurrenceView> {
        match self.sink(i) {
            None => None,
            Some(literal) => match self.literal(literal) {
                None => None,
                Some(value) => match key::canonical(value, self.separator) {
                    None => None,
                    Some(key) => Some(
                        self.mention(
                            self.content(literal),
                            key,
                            self.default_namespace,
                            OccurrenceKind::FullKey,
                        ),
                    ),
                },
            },
        }
    }

    /// What the first `n` of `order` name by types and properties.
    pub open spec fn sinks_of(self, order: Seq<int>, n: int) -> Seq<source::OccurrenceView>
        decreases n,
    {
        if n <= 0 {
            Seq::empty()
        } else {
            self.sinks_of(order, n - 1) + syntax::listed(self.sink_occurrence(order[n - 1]))
        }
    }

    /// The places in the file that name keys: first by calls, then by types and properties.
    pub open spec fn occurrences(self) -> Seq<source::OccurrenceView> {
        let order = syntax::walk(self.tree, 0);
        self.calls_of(self.bindings(), order, order.len() as int) + self.sinks_of(
            order,
            order.len() as int,
        )
    }
}

/// Whether `name` is `configured`, or ends with it behind a dot.
pub open spec fn is_type_name(name: Seq<char>, configured: Seq<char>) -> bool {
    name == configured || search::ends_with(name, "."@ + configured)
}

impl<'a> SourceFile<'a> {
    fn is_kind(&self, i: usize, kind: &str) -> (found: bool)
        requires
            i < self.nodes@.len(),
        ensures
            found == (self.deep_view().kind(i as int) == kind@),
    {
        assert(self.nodes.deep_view()[i as int] == self.nodes@[i as int].deep_view());
        syntax::is_kind(&self.nodes[i], kind)
    }

    fn text_at(&self, i: usize) -> (part: Option<&'a str>)
        requires
            i < self.nodes@.len(),
        ensures
            part.deep_view() == self.deep_view().text_at(i as int),
    {
        syntax::text_of(self.nodes, self.text, i)
    }

    fn field(&self, i: usize, name: &str) -> (child: Option<usize>)
        requires
            i < self.nodes@.len(),
        ensures
            syntax::index(child) == self.deep_view().field(i as int, name@),
            child matches Some(c) ==> i < c < self.nodes@.len(),
    {
        syntax::child_by_field(self.nodes, i, name)
    }

    fn field_text(&self, i: usize, name: &str) -> (part: Option<&'a str>)
        requires
            i < self.nodes@.len(),
        ensures
            part.deep_view() == self.deep_view().field_text(i as int, name@),
    {
        match self.field(i, name) {
            Some(child) => self.text_at(child),
            None => None,
        }
    }

    fn named(&self, i: usize) -> (children: Vec<usize>)
        requires
            i < self.nodes@.len(),
        ensures
            syntax::indices(children@) == self.deep_view().named(i as int),
            forall|k: int|
                0 <= k < children@.len() ==> i < #[trigger] children@[k] < self.nodes@.len(),
    {
        syntax::named_children_of(self.nodes, i)
    }

    fn nth(&self, i: usize, n: usize) -> (child: Option<usize>)
        requires
            i < self.nodes@.len(),
        ensures
            syntax::index(child) == self.deep_view().nth(i as int, n as int),
            child matches Some(c) ==> i < c < self.nodes@.len(),
    {
        let children = self.named(i);
        assert(syntax::indices(children@).len() == children@.len());
        if n < children.len() {
            assert(syntax::indices(children@)[n as int] == children@[n as int]);
            Some(children[n])
        } else {
            None
        }
    }

    fn span(&self, i: usize) -> (range: ByteRange)
        requires
            i < self.nodes@.len(),
        ensures
            range.deep_view() == self.deep_view().span(i as int),
    {
        assert(self.nodes.deep_view()[i as int] == self.nodes@[i as int].deep_view());
        ByteRange::new(self.nodes[i].start, self.nodes[i].end)
    }

    fn content(&self, i: usize) -> (range: ByteRange)
        requires
            i < self.nodes@.len(),
        ensures
            range.deep_view() == self.deep_view().content(i as int),
    {
        assert(self.nodes.deep_view()[i as int] == self.nodes@[i as int].deep_view());
        syntax::inside(&self.nodes[i])
    }

    fn literal(&self, i: usize) -> (value: Option<String>)
        requires
            i < self.nodes@.len(),
        ensures
            value.deep_view() == self.deep_view().literal(i as int),
    {
        match self.text_at(i) {
            Some(raw) => {
                assert(self.strings.deep_view().len() == self.strings@.len());
                if i < self.strings.len() {
                    assert(self.strings.deep_view()[i as int]
                        == self.strings@[i as int].deep_view());
                    unquote(raw, &self.strings[i])
                } else {
                    unquote(raw, &None)
                }
            },
            None => None,
        }
    }

    fn calls(&self, i: usize, name: &str) -> (found: bool)
        requires
            i < self.nodes@.len(),
        ensures
            found == self.deep_view().calls(i as int, name@),
    {
        if !self.is_kind(i, "call_expression") {
            return false;
        }
        match self.field_text(i, "function") {
            Some(callee) => text::same(callee, name),
            None => false,
        }
    }

    fn argument(&self, i: usize, n: usize) -> (child: Option<usize>)
        requires
            i < self.nodes@.len(),
        ensures
            syntax::index(child) == self.deep_view().argument(i as int, n as int),
            child matches Some(c) ==> i < c < self.nodes@.len(),
    {
        match self.field(i, "arguments") {
            Some(list) => self.nth(list, n),
            None => None,
        }
    }

    fn call(&self, i: usize) -> (found: Option<(&'a str, usize)>)
        requires
            i < self.nodes@.len(),
        ensures
            found is Some == self.deep_view().call(i as int) is Some,
            found matches Some((callee, first)) ==> self.deep_view().call(i as int) == Some(
                (callee@, first as int),
            ) && i < first < self.nodes@.len(),
    {
        if !self.is_kind(i, "call_expression") {
            return None;
        }
        match self.field_text(i, "function") {
            None => None,
            Some(callee) => match self.argument(i, 0) {
                None => None,
                Some(first) => Some((callee, first)),
            },
        }
    }

    fn property_name(&self, i: usize) -> (name: Option<&'a str>)
        requires
            i < self.nodes@.len(),
        ensures
            name.deep_view() == self.deep_view().property_name(i as int),
    {
        match self.text_at(i) {
            None => None,
            Some(raw) => {
                if self.is_kind(i, "string") {
                    let total: usize = text::size(raw);
                    if total == 0 {
                        assert(text::index_at(raw@, -1) is None);
                        None
                    } else {
                        text::slice(raw, 1, total - 1)
                    }
                } else {
                    Some(raw)
                }
            },
        }
    }

    fn pair_name(&self, i: usize) -> (name: Option<&'a str>)
        requires
            i < self.nodes@.len(),
        ensures
            name.deep_view() == self.deep_view().pair_name(i as int),
    {
        match self.field(i, "key") {
            Some(key) => self.property_name(key),
            None => None,
        }
    }

    fn property(&self, i: usize, name: &str) -> (value: Option<usize>)
        requires
            i < self.nodes@.len(),
        ensures
            syntax::index(value) == self.deep_view().property(i as int, name@),
            value matches Some(v) ==> i < v < self.nodes@.len(),
    {
        let ghost view = self.deep_view();
        if !self.is_kind(i, "object") {
            return None;
        }
        let members = self.named(i);
        let ghost all = view.named(i as int);
        let mut k: usize = 0;
        while k < members.len()
            invariant
                view == self.deep_view(),
                i < self.nodes@.len(),
                k <= members@.len(),
                all == syntax::indices(members@),
                view.property(i as int, name@) == view.property_from(all, name@, k as int),
                forall|n: int|
                    0 <= n < members@.len() ==> i < #[trigger] members@[n] < self.nodes@.len(),
            decreases members@.len() - k,
        {
            let pair: usize = members[k];
            assert(all[k as int] == pair);
            if self.is_kind(pair, "pair") {
                if let Some(found) = self.pair_name(pair) {
                    if text::same(found, name) {
                        return self.field(pair, "value");
                    }
                }
            }
            k += 1;
        }
        None
    }

    fn option(&self, i: usize, name: &str) -> (value: Option<usize>)
        requires
            i < self.nodes@.len(),
        ensures
            syntax::index(value) == self.deep_view().option(i as int, name@),
            value matches Some(v) ==> i < v < self.nodes@.len(),
    {
        match self.argument(i, 1) {
            Some(options) => self.property(options, name),
            None => None,
        }
    }

    fn option_text(&self, i: usize, name: &str) -> (value: Option<String>)
        requires
            i < self.nodes@.len(),
        ensures
            value.deep_view() == self.deep_view().option_text(i as int, name@),
    {
        match self.option(i, name) {
            Some(value) => self.literal(value),
            None => None,
        }
    }

    fn hook_namespace(&self, i: usize) -> (namespace: Option<String>)
        requires
            i < self.nodes@.len(),
        ensures
            namespace.deep_view() == self.deep_view().hook_namespace(i as int),
    {
        match self.argument(i, 0) {
            None => text::owned(self.default_namespace),
            Some(first) => {
                if let Some(raw) = self.text_at(first) {
                    if text::same(raw, "undefined") {
                        return text::owned(self.default_namespace);
                    }
                }
                self.literal(first)
            },
        }
    }

    fn hook_scope(&self, i: usize) -> (scope: Option<CanonicalKey>)
        requires
            i < self.nodes@.len(),
        ensures
            scope.deep_view() == self.deep_view().hook_scope(i as int),
    {
        match self.option_text(i, "keyPrefix") {
            Some(prefix) => CanonicalKey::new(prefix.as_str(), self.separator),
            None => None,
        }
    }

    fn hook_declaration(&self, i: usize) -> (range: ByteRange)
        requires
            i < self.nodes@.len(),
        ensures
            range.deep_view() == self.deep_view().hook_declaration(i as int),
    {
        if let Some(first) = self.argument(i, 0) {
            if self.literal(first).is_some() {
                return self.content(first);
            }
        }
        assert(self.nodes.deep_view()[i as int] == self.nodes@[i as int].deep_view());
        ByteRange::new(self.nodes[i].start, self.nodes[i].start)
    }
}

impl<'a> SourceFile<'a> {
    fn destructured(&self, i: usize) -> (names: Option<(&'a str, &'a str)>)
        requires
            i < self.nodes@.len(),
        ensures
            names.deep_view() == self.deep_view().destructured(i as int),
    {
        proof {
            reveal_strlit("");
        }
        assert(""@ =~= Seq::<char>::empty());
        if self.is_kind(i, "shorthand_property_identifier_pattern") {
            let name = self.text_at(i).unwrap_or("");
            Some((name, name))
        } else if self.is_kind(i, "pair_pattern") {
            let property = self.field_text(i, "key").unwrap_or("");
            let local = self.field_text(i, "value").unwrap_or("");
            Some((property, local))
        } else {
            None
        }
    }

    fn member_bindings(&self, i: usize, methods: &[String], base: &ScopeBinding) -> (bindings: Vec<
        ScopeBinding,
    >)
        requires
            i < self.nodes@.len(),
        ensures
            bindings.deep_view() == self.deep_view().member_bindings(
                self.deep_view().named(i as int),
                self.deep_view().named(i as int).len() as int,
                methods.deep_view(),
                base.deep_view(),
            ),
    {
        let ghost view = self.deep_view();
        let members = self.named(i);
        let ghost all = view.named(i as int);
        assert(all.len() == members@.len());
        let mut bindings: Vec<ScopeBinding> = Vec::new();
        let mut n: usize = 0;
        assert(bindings.deep_view() =~= Seq::<source::BindingView>::empty());
        while n < members.len()
            invariant
                view == self.deep_view(),
                n <= members@.len(),
                all == syntax::indices(members@),
                bindings.deep_view() == view.member_bindings(
                    all,
                    n as int,
                    methods.deep_view(),
                    base.deep_view(),
                ),
                forall|k: int|
                    0 <= k < members@.len() ==> i < #[trigger] members@[k] < self.nodes@.len(),
            decreases members@.len() - n,
        {
            assert(all[n as int] == members@[n as int]);
            if let Some((property, local)) = self.destructured(members[n]) {
                if text::any_is(methods, property) {
                    let ghost front = bindings.deep_view();
                    let binding = bind(base, local, property, true);
                    bindings.push(binding);
                    assert(bindings.deep_view() =~= front.push(binding.deep_view()));
                }
            }
            n += 1;
        }
        bindings
    }

    fn pattern_bindings(&self, i: usize, methods: &[String], base: &ScopeBinding) -> (bindings: Vec<
        ScopeBinding,
    >)
        requires
            i < self.nodes@.len(),
        ensures
            bindings.deep_view() == self.deep_view().pattern_bindings(
                i as int,
                methods.deep_view(),
                base.deep_view(),
            ),
    {
        let mut bindings: Vec<ScopeBinding> = Vec::new();
        assert(bindings.deep_view() =~= Seq::<source::BindingView>::empty());
        if self.is_kind(i, "identifier") {
            if let Some(name) = self.text_at(i) {
                let ghost all = methods.deep_view().map_values(
                    |method: Seq<char>| named_binding(base.deep_view(), name@, method, false),
                );
                let mut n: usize = 0;
                while n < methods.len()
                    invariant
                        n <= methods@.len(),
                        all == methods.deep_view().map_values(
                            |method: Seq<char>|
                                named_binding(base.deep_view(), name@, method, false),
                        ),
                        bindings.deep_view() == all.take(n as int),
                    decreases methods@.len() - n,
                {
                    let ghost front = bindings.deep_view();
                    let binding = bind(base, name, methods[n].as_str(), false);
                    bindings.push(binding);
                    assert(methods.deep_view()[n as int] == methods@[n as int]@);
                    assert(binding.deep_view() == all[n as int]);
                    assert(bindings.deep_view() =~= front.push(binding.deep_view()));
                    assert(all.take(n + 1) =~= front.push(all[n as int]));
                    n += 1;
                }
                assert(all.take(n as int) =~= all);
            }
            bindings
        } else if self.is_kind(i, "object_pattern") {
            self.member_bindings(i, methods, base)
        } else {
            bindings
        }
    }

    fn visibility(&self, i: usize) -> (range: ByteRange)
        requires
            i < self.nodes@.len(),
        ensures
            range.deep_view() == self.deep_view().visibility(i as int),
    {
        let outer: usize = syntax::lexical_container(self.nodes, i);
        assert(self.nodes.deep_view()[i as int] == self.nodes@[i as int].deep_view());
        assert(self.nodes.deep_view()[outer as int] == self.nodes@[outer as int].deep_view());
        ByteRange::new(self.nodes[i].end, self.nodes[outer].end)
    }

    fn scope_call(&self, i: usize) -> (found: Option<(&'a ScopedFunctionConfig, usize)>)
        requires
            i < self.nodes@.len(),
        ensures
            found is Some == self.deep_view().scope_call(i as int) is Some,
            found matches Some((function, literal)) ==> self.deep_view().scope_call(i as int)
                == Some((function.deep_view(), literal as int)) && i < literal < self.nodes@.len(),
    {
        match self.call(i) {
            None => None,
            Some((callee, first)) => {
                if self.is_kind(first, "string") || self.is_kind(first, "string_fragment") {
                    match config::find_scoped(self.scoped_functions, callee) {
                        Some(function) => Some((function, first)),
                        None => None,
                    }
                } else {
                    None
                }
            },
        }
    }

    fn scoped_bindings(&self, i: usize, pattern: usize, value: usize) -> (bindings: Vec<
        ScopeBinding,
    >)
        requires
            i < self.nodes@.len(),
            pattern < self.nodes@.len(),
            value < self.nodes@.len(),
        ensures
            bindings.deep_view() == self.deep_view().scoped_bindings(
                i as int,
                pattern as int,
                value as int,
            ),
    {
        if let Some((function, literal)) = self.scope_call(value) {
            if let Some(name) = self.literal(literal) {
                if let Some(scope) = CanonicalKey::new(name.as_str(), self.separator) {
                    let base = ScopeBinding {
                        name: String::new(),
                        method: String::new(),
                        scope: Some(scope),
                        namespace: match &function.default_namespace {
                            Some(namespace) => Some(namespace.clone()),
                            None => text::owned(self.default_namespace),
                        },
                        declaration_range: self.content(literal),
                        visibility: self.visibility(i),
                        direct_function: false,
                    };
                    assert(base.name@ =~= Seq::<char>::empty());
                    assert(base.method@ =~= Seq::<char>::empty());
                    return self.pattern_bindings(pattern, &function.translation_methods, &base);
                }
            }
        }
        let none: Vec<ScopeBinding> = Vec::new();
        assert(none.deep_view() =~= Seq::<source::BindingView>::empty());
        none
    }

    fn hook_bindings(&self, i: usize, pattern: usize, value: usize) -> (bindings: Vec<ScopeBinding>)
        requires
            i < self.nodes@.len(),
            pattern < self.nodes@.len(),
            value < self.nodes@.len(),
        ensures
            bindings.deep_view() == self.deep_view().hook_bindings(
                i as int,
                pattern as int,
                value as int,
            ),
    {
        if self.calls(value, "useTranslation") {
            if let Some(namespace) = self.hook_namespace(value) {
                let base = ScopeBinding {
                    name: String::new(),
                    method: String::new(),
                    scope: self.hook_scope(value),
                    namespace: Some(namespace),
                    declaration_range: self.hook_declaration(value),
                    visibility: self.visibility(i),
                    direct_function: false,
                };
                assert(base.name@ =~= Seq::<char>::empty());
                assert(base.method@ =~= Seq::<char>::empty());
                let mut methods: Vec<String> = Vec::new();
                methods.push("t".to_owned());
                assert(methods.deep_view() =~= seq!["t"@]);
                return self.pattern_bindings(pattern, &methods, &base);
            }
        }
        let none: Vec<ScopeBinding> = Vec::new();
        assert(none.deep_view() =~= Seq::<source::BindingView>::empty());
        none
    }

    fn bindings_at(&self, i: usize) -> (bindings: Vec<ScopeBinding>)
        requires
            i < self.nodes@.len(),
        ensures
            bindings.deep_view() == self.deep_view().bindings_at(i as int),
    {
        if self.is_kind(i, "variable_declarator") {
            if let (Some(pattern), Some(value)) = (self.field(i, "name"), self.field(i, "value")) {
                let mut bindings = self.scoped_bindings(i, pattern, value);
                let mut more = self.hook_bindings(i, pattern, value);
                let ghost first = bindings.deep_view();
                let ghost second = more.deep_view();
                bindings.append(&mut more);
                assert(bindings.deep_view() =~= first + second);
                return bindings;
            }
        }
        let none: Vec<ScopeBinding> = Vec::new();
        assert(none.deep_view() =~= Seq::<source::BindingView>::empty());
        none
    }

    /// The bindings of the file, in the order in which their scopes are declared.
    pub fn bindings(&self) -> (bindings: Vec<ScopeBinding>)
        ensures
            bindings.deep_view() == self.deep_view().bindings(),
    {
        let ghost view = self.deep_view();
        let order = syntax::walk_all(self.nodes);
        let ghost all = syntax::walk(view.tree, 0);
        assert(all.len() == order@.len());
        let mut found: Vec<ScopeBinding> = Vec::new();
        assert(found.deep_view() =~= Seq::<source::BindingView>::empty());
        let mut n: usize = 0;
        while n < order.len()
            invariant
                view == self.deep_view(),
                n <= order@.len(),
                all == syntax::indices(order@),
                forall|k: int| 0 <= k < order@.len() ==> #[trigger] order@[k] < self.nodes@.len(),
                found.deep_view() == view.bindings_of(all, n as int),
            decreases order@.len() - n,
        {
            assert(all[n as int] == order@[n as int]);
            let mut more = self.bindings_at(order[n]);
            let ghost first = found.deep_view();
            let ghost second = more.deep_view();
            found.append(&mut more);
            assert(found.deep_view() =~= first + second);
            n += 1;
        }
        sort::sort(found)
    }
}

/// A copy of `base` with its name and method.
fn bind(base: &ScopeBinding, name: &str, method: &str, direct_function: bool) -> (binding:
    ScopeBinding)
    ensures
        binding.deep_view() == named_binding(base.deep_view(), name@, method@, direct_function),
{
    let mut binding = base.clone();
    binding.name = name.to_owned();
    binding.method = method.to_owned();
    binding.direct_function = direct_function;
    binding
}

impl<'a> SourceFile<'a> {
    fn mention(
        &self,
        range: ByteRange,
        key: CanonicalKey,
        namespace: Option<String>,
        kind: OccurrenceKind,
    ) -> (occurrence: SourceOccurrence)
        ensures
            occurrence.deep_view() == self.deep_view().mention(
                range.deep_view(),
                key@,
                namespace.deep_view(),
                kind,
            ),
    {
        SourceOccurrence {
            uri: self.uri.to_owned(),
            range,
            key,
            namespace,
            kind,
            scope: None,
            relative_key: None,
            arguments: None,
        }
    }

    fn supplied(&self, i: usize) -> (argument: Option<TranslationArgument>)
        requires
            i < self.nodes@.len(),
        ensures
            argument.deep_view() == self.deep_view().supplied(i as int),
    {
        if self.is_kind(i, "pair") {
            match self.field(i, "key") {
                None => None,
                Some(key) => {
                    let quoted: bool = self.is_kind(key, "string");
                    if !quoted && !self.is_kind(key, "property_identifier") && !self.is_kind(
                        key,
                        "identifier",
                    ) {
                        return None;
                    }
                    match self.property_name(key) {
                        None => None,
                        Some(name) => Some(
                            TranslationArgument {
                                name: name.to_owned(),
                                range: if quoted {
                                    self.content(key)
                                } else {
                                    self.span(key)
                                },
                            },
                        ),
                    }
                },
            }
        } else if self.is_kind(i, "shorthand_property_identifier") {
            match self.text_at(i) {
                None => None,
                Some(name) => Some(
                    TranslationArgument { name: name.to_owned(), range: self.span(i) },
                ),
            }
        } else {
            None
        }
    }

    fn arguments(&self, i: usize) -> (result: TranslationArguments)
        requires
            i < self.nodes@.len(),
        ensures
            result.deep_view() == self.deep_view().arguments(i as int),
    {
        let ghost view = self.deep_view();
        let mut result = TranslationArguments { supplied: Vec::new(), uncertain: false };
        assert(result.supplied.deep_view() =~= Seq::<source::ArgumentView>::empty());
        let options: usize = match self.argument(i, 1) {
            None => {
                return result;
            },
            Some(options) => options,
        };
        if !self.is_kind(options, "object") {
            result.uncertain = true;
            return result;
        }
        let members = self.named(options);
        let ghost all = view.named(options as int);
        assert(all.len() == members@.len());
        let mut n: usize = 0;
        while n < members.len()
            invariant
                view == self.deep_view(),
                n <= members@.len(),
                all == syntax::indices(members@),
                forall|k: int|
                    0 <= k < members@.len() ==> options < #[trigger] members@[k]
                        < self.nodes@.len(),
                result.deep_view() == view.supplied_by(all, n as int),
            decreases members@.len() - n,
        {
            assert(all[n as int] == members@[n as int]);
            let ghost front = result.supplied.deep_view();
            match self.supplied(members[n]) {
                Some(argument) => {
                    result.supplied.push(argument);
                    assert(result.supplied.deep_view() =~= front.push(argument.deep_view()));
                },
                None => {
                    result.uncertain = true;
                },
            }
            n += 1;
        }
        result
    }

    fn prefix_declaration(&self, i: usize) -> (found: Option<SourceOccurrence>)
        requires
            i < self.nodes@.len(),
        ensures
            found.deep_view() == self.deep_view().prefix_declaration(i as int),
    {
        if !self.calls(i, "useTranslation") {
            return None;
        }
        match self.option(i, "keyPrefix") {
            None => None,
            Some(prefix) => match self.hook_scope(i) {
                None => None,
                Some(scope) => {
                    let namespace = self.hook_namespace(i);
                    if namespace.is_some() || self.default_namespace.is_none() {
                        Some(
                            self.mention(
                                self.content(prefix),
                                scope,
                                namespace,
                                OccurrenceKind::ScopeDeclaration,
                            ),
                        )
                    } else {
                        None
                    }
                },
            },
        }
    }

    fn takes_full_keys(&self, callee: &str) -> (found: bool)
        ensures
            found == self.deep_view().takes_full_keys(callee@),
    {
        text::same(callee, "i18next.t") || config::find_full_key(
            self.full_key_functions,
            callee,
        ).is_some()
    }

    fn configured_namespace(&self, callee: &str) -> (namespace: Option<String>)
        ensures
            namespace.deep_view() == either(
                self.deep_view().function_namespace(callee@),
                self.deep_view().default_namespace,
            ),
    {
        if let Some(function) = config::find_full_key(self.full_key_functions, callee) {
            if let Some(namespace) = &function.default_namespace {
                return Some(namespace.clone());
            }
        }
        text::owned(self.default_namespace)
    }

    fn full_key_namespace(&self, i: usize, callee: &str) -> (namespace: Option<String>)
        requires
            i < self.nodes@.len(),
        ensures
            namespace.deep_view() == self.deep_view().full_key_namespace(i as int, callee@),
    {
        if text::same(callee, "i18next.t") {
            if let Some(namespace) = self.option_text(i, "ns") {
                return Some(namespace);
            }
        }
        self.configured_namespace(callee)
    }

    fn scoped_key(&self, binding: &ScopeBinding, relative: &str) -> (key: Option<CanonicalKey>)
        ensures
            key.deep_view() == self.deep_view().scoped_key(binding.deep_view(), relative@),
    {
        if let Some(scope) = &binding.scope {
            if let Some(key) = CanonicalKey::join(scope, relative, self.separator) {
                return Some(key);
            }
        }
        CanonicalKey::new(relative, self.separator)
    }

    fn full_key_occurrence(&self, i: usize, callee: &str, first: usize, value: &str) -> (found:
        Option<SourceOccurrence>)
        requires
            i < self.nodes@.len(),
            first < self.nodes@.len(),
        ensures
            found.deep_view() == self.deep_view().full_key_occurrence(
                i as int,
                callee@,
                first as int,
                value@,
            ),
    {
        match CanonicalKey::new(value, self.separator) {
            None => None,
            Some(whole) => {
                let (namespace, key) = match key::split_namespace_key(value, self.separator) {
                    Some((namespace, key)) => (Some(namespace), key),
                    None => (self.full_key_namespace(i, callee), whole),
                };
                let mut occurrence = self.mention(
                    self.content(first),
                    key,
                    namespace,
                    OccurrenceKind::FullKey,
                );
                occurrence.arguments = Some(self.arguments(i));
                Some(occurrence)
            },
        }
    }

    fn scoped_occurrence(&self, i: usize, binding: &ScopeBinding, first: usize, value: &str) -> (found:
        Option<SourceOccurrence>)
        requires
            i < self.nodes@.len(),
            first < self.nodes@.len(),
        ensures
            found.deep_view() == self.deep_view().scoped_occurrence(
                i as int,
                binding.deep_view(),
                first as int,
                value@,
            ),
    {
        let (namespace, relative) = match key::split_namespace_key(value, self.separator) {
            Some((namespace, key)) => (Some(namespace), key.as_str().to_owned()),
            None => (text::copy(&binding.namespace), value.to_owned()),
        };
        match self.scoped_key(binding, relative.as_str()) {
            None => None,
            Some(key) => {
                let mut occurrence = self.mention(
                    self.content(first),
                    key,
                    namespace,
                    OccurrenceKind::ScopedKey,
                );
                occurrence.scope = source::copy_key(&binding.scope);
                occurrence.relative_key = Some(relative);
                occurrence.arguments = Some(self.arguments(i));
                Some(occurrence)
            },
        }
    }

    fn literal_occurrence(
        &self,
        bindings: &[ScopeBinding],
        i: usize,
        callee: &str,
        first: usize,
        value: &str,
    ) -> (found: Option<SourceOccurrence>)
        requires
            i < self.nodes@.len(),
            first < self.nodes@.len(),
        ensures
            found.deep_view() == self.deep_view().literal_occurrence(
                bindings.deep_view(),
                i as int,
                callee@,
                first as int,
                value@,
            ),
    {
        if let Some(function) = config::find_scoped(self.scoped_functions, callee) {
            let namespace = match &function.default_namespace {
                Some(namespace) => Some(namespace.clone()),
                None => text::owned(self.default_namespace),
            };
            match CanonicalKey::new(value, self.separator) {
                None => None,
                Some(scope) => Some(
                    self.mention(
                        self.content(first),
                        scope,
                        namespace,
                        OccurrenceKind::ScopeDeclaration,
                    ),
                ),
            }
        } else if text::same(callee, "useTranslation") {
            match CanonicalKey::new(value, self.separator) {
                None => None,
                Some(key) => Some(
                    self.mention(
                        self.content(first),
                        key,
                        Some(value.to_owned()),
                        OccurrenceKind::NamespaceDeclaration,
                    ),
                ),
            }
        } else if self.takes_full_keys(callee) {
            self.full_key_occurrence(i, callee, first, value)
        } else {
            assert(self.nodes.deep_view()[i as int] == self.nodes@[i as int].deep_view());
            match resolve_binding(callee, self.nodes[i].start, bindings) {
                Some(binding) => self.scoped_occurrence(i, binding, first, value),
                None => None,
            }
        }
    }

    fn template_prefix(&self, i: usize) -> (found: Option<(String, ByteRange)>)
        requires
            i < self.nodes@.len(),
        ensures
            found.deep_view() == self.deep_view().template_prefix(i as int),
    {
        if !self.is_kind(i, "template_string") {
            return None;
        }
        let (fragment, value): (usize, usize) = match (self.nth(i, 0), self.nth(i, 1)) {
            (Some(fragment), Some(value)) => (fragment, value),
            _ => {
                return None;
            },
        };
        if !self.is_kind(fragment, "string_fragment") || !self.is_kind(
            value,
            "template_substitution",
        ) {
            return None;
        }
        assert(self.nodes.deep_view()[fragment as int]
            == self.nodes@[fragment as int].deep_view());
        let raw = match self.text_at(fragment) {
            None => {
                return None;
            },
            Some(raw) => raw,
        };
        match search::without_suffix(raw, self.separator) {
            None => None,
            Some(prefix) => {
                if CanonicalKey::new(prefix.as_str(), self.separator).is_none() {
                    return None;
                }
                let end: usize = self.nodes[fragment].end;
                let width: usize = text::size(self.separator);
                let range = ByteRange::new(
                    self.nodes[fragment].start,
                    if end <= width {
                        0
                    } else {
                        end - width
                    },
                );
                Some((prefix, range))
            },
        }
    }

    fn template_occurrence(
        &self,
        bindings: &[ScopeBinding],
        i: usize,
        callee: &str,
        prefix: &str,
        range: ByteRange,
    ) -> (found: Option<SourceOccurrence>)
        requires
            i < self.nodes@.len(),
        ensures
            found.deep_view() == self.deep_view().template_occurrence(
                bindings.deep_view(),
                i as int,
                callee@,
                prefix@,
                range.deep_view(),
            ),
    {
        assert(self.nodes.deep_view()[i as int] == self.nodes@[i as int].deep_view());
        let resolved = resolve_binding(callee, self.nodes[i].start, bindings);
        let own = match resolved {
            Some(binding) => text::copy(&binding.namespace),
            None => None,
        };
        let namespace = match own {
            Some(namespace) => Some(namespace),
            None => self.configured_namespace(callee),
        };
        if self.takes_full_keys(callee) {
            return match CanonicalKey::new(prefix, self.separator) {
                None => None,
                Some(key) => Some(
                    self.mention(range, key, namespace, OccurrenceKind::DynamicScope),
                ),
            };
        }
        match resolved {
            None => None,
            Some(binding) => match self.scoped_key(binding, prefix) {
                None => None,
                Some(key) => {
                    let mut occurrence = self.mention(
                        range,
                        key,
                        namespace,
                        OccurrenceKind::DynamicScope,
                    );
                    occurrence.scope = source::copy_key(&binding.scope);
                    occurrence.relative_key = Some(prefix.to_owned());
                    Some(occurrence)
                },
            },
        }
    }

    fn dynamic_occurrence(
        &self,
        bindings: &[ScopeBinding],
        i: usize,
        callee: &str,
        first: usize,
    ) -> (found: Option<SourceOccurrence>)
        requires
            i < self.nodes@.len(),
            first < self.nodes@.len(),
        ensures
            found.deep_view() == self.deep_view().dynamic_occurrence(
                bindings.deep_view(),
                i as int,
                callee@,
                first as int,
            ),
    {
        assert(self.nodes.deep_view()[i as int] == self.nodes@[i as int].deep_view());
        assert(self.nodes.deep_view()[first as int] == self.nodes@[first as int].deep_view());
        match resolve_binding(callee, self.nodes[i].start, bindings) {
            None => None,
            Some(binding) => match &binding.scope {
                None => None,
                Some(scope) => Some(
                    self.mention(
                        ByteRange::new(self.nodes[first].start, self.nodes[first].start),
                        scope.clone(),
                        text::copy(&binding.namespace),
                        OccurrenceKind::DynamicScope,
                    ),
                ),
            },
        }
    }

    fn call_occurrence(&self, bindings: &[ScopeBinding], i: usize) -> (found: Option<
        SourceOccurrence,
    >)
        requires
            i < self.nodes@.len(),
        ensures
            found.deep_view() == self.deep_view().call_occurrence(bindings.deep_view(), i as int),
    {
        match self.call(i) {
            None => None,
            Some((callee, first)) => {
                if let Some(value) = self.literal(first) {
                    self.literal_occurrence(bindings, i, callee, first, value.as_str())
                } else if let Some((prefix, range)) = self.template_prefix(first) {
                    self.template_occurrence(bindings, i, callee, prefix.as_str(), range)
                } else if self.is_kind(first, "template_string") {
                    None
                } else {
                    self.dynamic_occurrence(bindings, i, callee, first)
                }
            },
        }
    }

    fn call_occurrences(&self, bindings: &[ScopeBinding]) -> (found: Vec<SourceOccurrence>)
        ensures
            found.deep_view() == self.deep_view().calls_of(
                bindings.deep_view(),
                syntax::walk(self.deep_view().tree, 0),
                syntax::walk(self.deep_view().tree, 0).len() as int,
            ),
    {
        let ghost view = self.deep_view();
        let order = syntax::walk_all(self.nodes);
        let ghost all = syntax::walk(view.tree, 0);
        assert(all.len() == order@.len());
        let mut found: Vec<SourceOccurrence> = Vec::new();
        assert(found.deep_view() =~= Seq::<source::OccurrenceView>::empty());
        let mut n: usize = 0;
        while n < order.len()
            invariant
                view == self.deep_view(),
                n <= order@.len(),
                all == syntax::indices(order@),
                forall|k: int| 0 <= k < order@.len() ==> #[trigger] order@[k] < self.nodes@.len(),
                found.deep_view() == view.calls_of(bindings.deep_view(), all, n as int),
            decreases order@.len() - n,
        {
            let i: usize = order[n];
            assert(all[n as int] == i);
            let ghost front = found.deep_view();
            if self.is_kind(i, "call_expression") {
                let first = self.prefix_declaration(i);
                let second = self.call_occurrence(bindings, i);
                push_found(&mut found, first);
                push_found(&mut found, second);
                assert(found.deep_view() =~= front + view.calls_at(bindings.deep_view(), i as int));
            }
            assert(front + Seq::<source::OccurrenceView>::empty() =~= front);
            n += 1;
        }
        found
    }

    fn names_key_type(&self, i: usize) -> (found: bool)
        requires
            i < self.nodes@.len(),
        ensures
            found == self.deep_view().names_key_type(i as int),
    {
        let ghost view = self.deep_view();
        if !self.is_kind(i, "type_identifier") && !self.is_kind(i, "nested_type_identifier")
            && !self.is_kind(i, "identifier") {
            return false;
        }
        match self.text_at(i) {
            None => false,
            Some(name) => {
                let mut k: usize = 0;
                while k < self.key_types.len()
                    invariant
                        k <= self.key_types@.len(),
                        view == self.deep_view(),
                        view.text_at(i as int) == Some(name@),
                        view.kind(i as int) == "type_identifier"@ || view.kind(i as int)
                            == "nested_type_identifier"@ || view.kind(i as int) == "identifier"@,
                        forall|j: int|
                            0 <= j < k ==> !is_type_name(name@, #[trigger] view.key_types[j]),
                    decreases self.key_types@.len() - k,
                {
                    assert(view.key_types[k as int] == self.key_types@[k as int]@);
                    let configured = self.key_types[k].as_str();
                    if text::same(name, configured) {
                        return true;
                    }
                    let mut suffix = ".".to_owned();
                    suffix.append(configured);
                    if search::ends(name, suffix.as_str()) {
                        return true;
                    }
                    k += 1;
                }
                false
            },
        }
    }

    fn has_key_type(&self, i: usize) -> (found: bool)
        requires
            i < self.nodes@.len(),
        ensures
            found == self.deep_view().has_key_type(i as int),
    {
        let ghost view = self.deep_view();
        let order = syntax::walk_from(self.nodes, i);
        let ghost all = syntax::walk(view.tree, i as int);
        assert(all.len() == order@.len());
        let mut k: usize = 0;
        while k < order.len()
            invariant
                k <= order@.len(),
                view == self.deep_view(),
                all == syntax::indices(order@),
                all == syntax::walk(view.tree, i as int),
                forall|j: int| 0 <= j < order@.len() ==> #[trigger] order@[j] < self.nodes@.len(),
                forall|j: int| 0 <= j < k ==> !view.names_key_type(#[trigger] all[j]),
            decreases order@.len() - k,
        {
            assert(all[k as int] == order@[k as int]);
            if self.names_key_type(order[k]) {
                return true;
            }
            k += 1;
        }
        false
    }

    fn literal_in(&self, i: usize) -> (found: Option<usize>)
        requires
            i < self.nodes@.len(),
        ensures
            syntax::index(found) == self.deep_view().literal_in(i as int),
            found matches Some(c) ==> c < self.nodes@.len(),
        decreases self.nodes@.len() - i,
    {
        let ghost view = self.deep_view();
        if self.is_kind(i, "string") {
            return Some(i);
        }
        if !self.is_kind(i, "jsx_expression") && !self.is_kind(i, "parenthesized_expression") {
            return None;
        }
        let nodes = self.nodes;
        let total: usize = nodes.len();
        let mut j: usize = i + 1;
        while j < total && nodes[j].depth > nodes[i].depth
            invariant
                i < j <= total,
                nodes == self.nodes,
                total == nodes@.len(),
                view == self.deep_view(),
                view.literal_in(i as int) == view.literal_inside(i as int, j as int),
            decreases total - j,
        {
            assert(view.tree[j as int] == nodes@[j as int].deep_view());
            assert(view.tree[i as int] == nodes@[i as int].deep_view());
            if nodes[j].depth - 1 == nodes[i].depth && nodes[j].named {
                let found = self.literal_in(j);
                if found.is_some() {
                    return found;
                }
            }
            j += 1;
        }
        assert(syntax::closed_at(view.tree, i as int, j as int)) by {
            if j < nodes@.len() {
                assert(view.tree[j as int] == nodes@[j as int].deep_view());
                assert(view.tree[i as int] == nodes@[i as int].deep_view());
            }
        }
        None
    }

    fn literal_of(&self, expression: Option<usize>) -> (found: Option<usize>)
        requires
            expression matches Some(i) ==> i < self.nodes@.len(),
        ensures
            syntax::index(found) == self.deep_view().literal_of(syntax::index(expression)),
            found matches Some(c) ==> c < self.nodes@.len(),
    {
        match expression {
            Some(i) => self.literal_in(i),
            None => None,
        }
    }

    fn is_key_prop(&self, name: Option<&str>) -> (found: bool)
        ensures
            found == self.deep_view().is_key_prop(name.deep_view()),
    {
        match name {
            Some(name) => text::any_is(self.key_props, name),
            None => false,
        }
    }

    fn field_or_nth(&self, i: usize, name: &str, n: usize) -> (child: Option<usize>)
        requires
            i < self.nodes@.len(),
        ensures
            syntax::index(child) == either(
                self.deep_view().field(i as int, name@),
                self.deep_view().nth(i as int, n as int),
            ),
            child matches Some(c) ==> c < self.nodes@.len(),
    {
        let found = self.field(i, name);
        if found.is_some() {
            found
        } else {
            self.nth(i, n)
        }
    }

    fn sink(&self, i: usize) -> (found: Option<usize>)
        requires
            i < self.nodes@.len(),
        ensures
            syntax::index(found) == self.deep_view().sink(i as int),
            found matches Some(c) ==> c < self.nodes@.len(),
    {
        if self.is_kind(i, "variable_declarator") {
            match self.field(i, "type") {
                Some(ty) if self.has_key_type(ty) => self.literal_of(self.field(i, "value")),
                _ => None,
            }
        } else if self.is_kind(i, "as_expression") || self.is_kind(i, "satisfies_expression")
            || self.is_kind(i, "type_assertion") {
            let count: usize = self.named(i).len();
            assert(self.deep_view().named(i as int).len() == count);
            let last: usize = if count == 0 {
                0
            } else {
                count - 1
            };
            match self.field_or_nth(i, "type", last) {
                Some(ty) if self.has_key_type(ty) => self.literal_of(
                    self.field_or_nth(i, "expression", 0),
                ),
                _ => None,
            }
        } else if self.is_kind(i, "jsx_attribute") {
            match self.field_or_nth(i, "name", 0) {
                Some(name) if self.is_key_prop(self.text_at(name)) => self.literal_of(
                    self.field_or_nth(i, "value", 1),
                ),
                _ => None,
            }
        } else if self.is_kind(i, "pair") {
            if self.is_key_prop(self.pair_name(i)) {
                self.literal_of(self.field(i, "value"))
            } else {
                None
            }
        } else {
            None
        }
    }

    fn sink_occurrence(&self, i: usize) -> (found: Option<SourceOccurrence>)
        requires
            i < self.nodes@.len(),
        ensures
            found.deep_view() == self.deep_view().sink_occurrence(i as int),
    {
        match self.sink(i) {
            None => None,
            Some(literal) => match self.literal(literal) {
                None => None,
                Some(value) => match CanonicalKey::new(value.as_str(), self.separator) {
                    None => None,
                    Some(key) => Some(
                        self.mention(
                            self.content(literal),
                            key,
                            text::owned(self.default_namespace),
                            OccurrenceKind::FullKey,
                        ),
                    ),
                },
            },
        }
    }

    fn sinks(&self) -> (found: Vec<SourceOccurrence>)
        ensures
            found.deep_view() == self.deep_view().sinks_of(
                syntax::walk(self.deep_view().tree, 0),
                syntax::walk(self.deep_view().tree, 0).len() as int,
            ),
    {
        let ghost view = self.deep_view();
        let order = syntax::walk_all(self.nodes);
        let ghost all = syntax::walk(view.tree, 0);
        assert(all.len() == order@.len());
        let mut found: Vec<SourceOccurrence> = Vec::new();
        assert(found.deep_view() =~= Seq::<source::OccurrenceView>::empty());
        let mut n: usize = 0;
        while n < order.len()
            invariant
                view == self.deep_view(),
                n <= order@.len(),
                all == syntax::indices(order@),
                forall|k: int| 0 <= k < order@.len() ==> #[trigger] order@[k] < self.nodes@.len(),
                found.deep_view() == view.sinks_of(all, n as int),
            decreases order@.len() - n,
        {
            assert(all[n as int] == order@[n as int]);
            let occurrence = self.sink_occurrence(order[n]);
            push_found(&mut found, occurrence);
            n += 1;
        }
        found
    }

    /// The places in the file that name keys, given its bindings.
    pub fn occurrences(&self, bindings: &[ScopeBinding]) -> (found: Vec<SourceOccurrence>)
        requires
            bindings.deep_view() == self.deep_view().bindings(),
        ensures
            found.deep_view() == self.deep_view().occurrences(),
    {
        let mut found = self.call_occurrences(bindings);
        let mut sinks = self.sinks();
        let ghost first = found.deep_view();
        let ghost second = sinks.deep_view();
        found.append(&mut sinks);
        assert(found.deep_view() =~= first + second);
        found
    }
}

/// Adds what was found.
fn push_found(all: &mut Vec<SourceOccurrence>, found: Option<SourceOccurrence>)
    ensures
        final(all).deep_view() == old(all).deep_view() + syntax::listed(found.deep_view()),
{
    let ghost front = all.deep_view();
    if let Some(occurrence) = found {
        all.push(occurrence);
        assert(all.deep_view() =~= front.push(occurrence.deep_view()));
        assert(all.deep_view() =~= front + seq![occurrence.deep_view()]);
    } else {
        assert(all.deep_view() =~= front + Seq::<source::OccurrenceView>::empty());
    }
}

/// The last binding that is visible at `at` and that `callee` uses.
pub fn resolve_binding<'a>(callee: &str, at: usize, bindings: &'a [ScopeBinding]) -> (found: Option<
    &'a ScopeBinding,
>)
    ensures
        found.deep_view() == resolved(
            bindings.deep_view(),
            bindings.deep_view().len() as int,
            callee@,
            at,
        ),
{
    let ghost all = bindings.deep_view();
    let mut n: usize = bindings.len();
    while n > 0
        invariant
            n <= bindings@.len(),
            all == bindings.deep_view(),
            resolved(all, all.len() as int, callee@, at) == resolved(all, n as int, callee@, at),
        decreases n,
    {
        let binding = &bindings[n - 1];
        assert(all[n - 1] == binding.deep_view());
        if binding.visibility.contains(at) {
            let mut used = binding.name.clone();
            if !binding.direct_function {
                used.append(".");
                used.append(binding.method.as_str());
            }
            if text::same(callee, used.as_str()) {
                return Some(binding);
            }
        }
        n -= 1;
    }
    None
}

/// The text of a quoted string.
pub fn unquote(raw: &str, decoded: &Option<String>) -> (value: Option<String>)
    ensures
        value.deep_view() == unquoted(raw@, decoded.deep_view()),
{
    let chars = text::chars_of(raw);
    let total: usize = chars.len();
    if total < 2 || chars[0] != chars[total - 1] {
        return None;
    }
    if chars[0] == '"' {
        return text::copy(decoded);
    }
    if chars[0] != '\'' {
        return None;
    }
    let inner = text::string_of(&chars, 1, total - 1);
    proof {
        reveal_strlit("\\'");
        reveal_strlit("'");
        reveal_strlit("\\\\");
        reveal_strlit("\\");
    }
    assert("\\'"@ =~= seq!['\\', '\'']);
    assert("'"@ =~= seq!['\'']);
    assert("\\\\"@ =~= seq!['\\', '\\']);
    assert("\\"@ =~= seq!['\\']);
    let quotes = search::replace(inner.as_str(), "\\'", "'");
    Some(search::replace(quotes.as_str(), "\\\\", "\\"))
}

/// The occurrences and the bindings of a file whose tree is known.
pub fn analyze_nodes(file: &SourceFile<'_>) -> (found: (Vec<SourceOccurrence>, Vec<ScopeBinding>))
    ensures
        found.0.deep_view() == file.deep_view().occurrences(),
        found.1.deep_view() == file.deep_view().bindings(),
{
    let bindings = file.bindings();
    (file.occurrences(&bindings), bindings)
}

/// The occurrences in a file: none where it has no tree.
pub open spec fn occurrences_in(file: SourceView, tree: Option<Seq<syntax::NodeView>>) -> Seq<
    source::OccurrenceView,
> {
    match tree {
        Some(tree) => (SourceView {
            tree,
            strings: syntax::strings_of(tree, file.text),
            ..file
        }).occurrences(),
        None => Seq::empty(),
    }
}

/// The bindings in a file: none where it has no tree.
pub open spec fn bindings_in(file: SourceView, tree: Option<Seq<syntax::NodeView>>) -> Seq<
    source::BindingView,
> {
    match tree {
        Some(tree) => (SourceView {
            tree,
            strings: syntax::strings_of(tree, file.text),
            ..file
        }).bindings(),
        None => Seq::empty(),
    }
}

/// The occurrences and the bindings of a source file, with a namespace for each function.
pub fn analyze_source_with_namespace(
    uri: &str,
    text: &str,
    separator: &str,
    scoped_functions: &[ScopedFunctionConfig],
    full_key_functions: &[FullKeyFunctionConfig],
    translation_key_types: &[String],
    translation_key_props: &[String],
    default_namespace: Option<&str>,
) -> (found: (Vec<SourceOccurrence>, Vec<ScopeBinding>))
    ensures
        ({
            let file = SourceView {
                uri: uri@,
                text: text@,
                tree: Seq::empty(),
                strings: Seq::empty(),
                separator: separator@,
                scoped_functions: scoped_functions.deep_view(),
                full_key_functions: full_key_functions.deep_view(),
                key_types: translation_key_types.deep_view(),
                key_props: translation_key_props.deep_view(),
                default_namespace: default_namespace.deep_view(),
            };
            &&& found.0.deep_view() == occurrences_in(file, syntax::tsx_tree(text@))
            &&& found.1.deep_view() == bindings_in(file, syntax::tsx_tree(text@))
        }),
{
    match syntax::parse_tsx(text) {
        None => {
            let found: (Vec<SourceOccurrence>, Vec<ScopeBinding>) = (Vec::new(), Vec::new());
            assert(found.0.deep_view() =~= Seq::<source::OccurrenceView>::empty());
            assert(found.1.deep_view() =~= Seq::<source::BindingView>::empty());
            found
        },
        Some(nodes) => {
            let strings = syntax::read_strings(&nodes, text);
            analyze_nodes(
                &SourceFile {
                    uri,
                    text,
                    nodes: &nodes,
                    strings: &strings,
                    separator,
                    scoped_functions,
                    full_key_functions,
                    key_types: translation_key_types,
                    key_props: translation_key_props,
                    default_namespace,
                },
            )
        },
    }
}

/// Scoped functions that share their methods and have no namespace of their own.
pub open spec fn scoped_alike(names: Seq<Seq<char>>, methods: Seq<Seq<char>>) -> Seq<
    config::ScopedFunctionView,
> {
    names.map_values(
        |name: Seq<char>|
            config::ScopedFunctionView {
                function_name: name,
                default_namespace: None,
                translation_methods: methods,
            },
    )
}

/// Full-key functions that have no namespace of their own.
pub open spec fn full_key_alike(names: Seq<Seq<char>>) -> Seq<config::FullKeyFunctionView> {
    names.map_values(
        |name: Seq<char>|
            config::FullKeyFunctionView { function_name: name, default_namespace: None },
    )
}

/// The occurrences and the bindings of a source file, without namespaces.
pub fn analyze_source(
    uri: &str,
    text: &str,
    separator: &str,
    scoped_functions: &[String],
    methods: &[String],
    full_key_functions: &[String],
    translation_key_types: &[String],
    translation_key_props: &[String],
) -> (found: (Vec<SourceOccurrence>, Vec<ScopeBinding>))
    ensures
        ({
            let file = SourceView {
                uri: uri@,
                text: text@,
                tree: Seq::empty(),
                strings: Seq::empty(),
                separator: separator@,
                scoped_functions: scoped_alike(scoped_functions.deep_view(), methods.deep_view()),
                full_key_functions: full_key_alike(full_key_functions.deep_view()),
                key_types: translation_key_types.deep_view(),
                key_props: translation_key_props.deep_view(),
                default_namespace: None,
            };
            &&& found.0.deep_view() == occurrences_in(file, syntax::tsx_tree(text@))
            &&& found.1.deep_view() == bindings_in(file, syntax::tsx_tree(text@))
        }),
{
    let ghost all = scoped_alike(scoped_functions.deep_view(), methods.deep_view());
    let mut scoped: Vec<ScopedFunctionConfig> = Vec::new();
    let mut n: usize = 0;
    while n < scoped_functions.len()
        invariant
            n <= scoped_functions@.len(),
            all == scoped_alike(scoped_functions.deep_view(), methods.deep_view()),
            scoped.deep_view() == all.take(n as int),
        decreases scoped_functions@.len() - n,
    {
        let ghost front = scoped.deep_view();
        let function = ScopedFunctionConfig {
            function_name: scoped_functions[n].clone(),
            default_namespace: None,
            translation_methods: text::copies(methods),
        };
        assert(scoped_functions.deep_view()[n as int] == scoped_functions@[n as int]@);
        assert(function.deep_view() == all[n as int]);
        scoped.push(function);
        assert(scoped.deep_view() =~= front.push(all[n as int]));
        assert(all.take(n + 1) =~= front.push(all[n as int]));
        n += 1;
    }
    assert(all.take(n as int) =~= all);
    let ghost whole = full_key_alike(full_key_functions.deep_view());
    let mut full_key: Vec<FullKeyFunctionConfig> = Vec::new();
    let mut m: usize = 0;
    while m < full_key_functions.len()
        invariant
            m <= full_key_functions@.len(),
            whole == full_key_alike(full_key_functions.deep_view()),
            full_key.deep_view() == whole.take(m as int),
        decreases full_key_functions@.len() - m,
    {
        let ghost front = full_key.deep_view();
        let function = FullKeyFunctionConfig {
            function_name: full_key_functions[m].clone(),
            default_namespace: None,
        };
        assert(full_key_functions.deep_view()[m as int] == full_key_functions@[m as int]@);
        assert(function.deep_view() == whole[m as int]);
        full_key.push(function);
        assert(full_key.deep_view() =~= front.push(whole[m as int]));
        assert(whole.take(m + 1) =~= front.push(whole[m as int]));
        m += 1;
    }
    assert(whole.take(m as int) =~= whole);
    analyze_source_with_namespace(
        uri,
        text,
        separator,
        &scoped,
        &full_key,
        translation_key_types,
        translation_key_props,
        None,
    )
}

} // verus!
