//! The places in source code that name translation keys.
use crate::key::CanonicalKey;
use crate::lookup::Keyed;
use crate::sort::Ranked;
use crate::text;
use crate::ByteRange;
use vstd::prelude::*;

verus! {

/// How a place in source code names a key.
#[derive(Clone, Copy, Debug, PartialEq, Eq, Structural)]
pub enum OccurrenceKind {
    /// By all of it.
    FullKey,
    /// By what follows the scope of a binding.
    ScopedKey,
    /// As the scope of keys to come.
    ScopeDeclaration,
    /// As the scope of keys that are only known when the program runs.
    DynamicScope,
    /// As a namespace.
    NamespaceDeclaration,
}

/// One place in source code that names a key.
#[derive(Debug)]
pub struct SourceOccurrence {
    pub uri: String,
    pub range: ByteRange,
    pub key: CanonicalKey,
    pub namespace: Option<String>,
    pub kind: OccurrenceKind,
    pub scope: Option<CanonicalKey>,
    pub relative_key: Option<String>,
    pub arguments: Option<TranslationArguments>,
}

/// What a `SourceOccurrence` holds.
pub struct OccurrenceView {
    pub uri: Seq<char>,
    pub range: (usize, usize),
    pub key: Seq<char>,
    pub namespace: Option<Seq<char>>,
    pub kind: OccurrenceKind,
    pub scope: Option<Seq<char>>,
    pub relative_key: Option<Seq<char>>,
    pub arguments: Option<ArgumentsView>,
}

impl DeepView for SourceOccurrence {
    type V = OccurrenceView;

    open spec fn deep_view(&self) -> OccurrenceView {
        OccurrenceView {
            uri: self.uri@,
            range: self.range.deep_view(),
            key: self.key@,
            namespace: self.namespace.deep_view(),
            kind: self.kind,
            scope: self.scope.deep_view(),
            relative_key: self.relative_key.deep_view(),
            arguments: self.arguments.deep_view(),
        }
    }
}

impl Clone for SourceOccurrence {
    fn clone(&self) -> (copy: Self)
        ensures
            copy.deep_view() == self.deep_view(),
    {
        SourceOccurrence {
            uri: self.uri.clone(),
            range: self.range.clone(),
            key: self.key.clone(),
            namespace: text::copy(&self.namespace),
            kind: self.kind,
            scope: copy_key(&self.scope),
            relative_key: text::copy(&self.relative_key),
            arguments: match &self.arguments {
                Some(arguments) => Some(arguments.clone()),
                None => None,
            },
        }
    }
}

impl Ranked for SourceOccurrence {
    /// Occurrences come in the order of their keys.
    open spec fn ahead(first: OccurrenceView, second: OccurrenceView) -> bool {
        text::precedes(first.key, second.key)
    }

    proof fn ahead_one_way(first: OccurrenceView, second: OccurrenceView) {
        text::precedes_total(first.key, second.key);
    }

    proof fn ahead_through(first: OccurrenceView, second: OccurrenceView, third: OccurrenceView) {
        text::precedes_total(first.key, second.key);
        text::precedes_total(second.key, third.key);
        text::precedes_total(first.key, third.key);
        if text::precedes(first.key, second.key) && text::precedes(second.key, third.key) {
            text::precedes_transitive(first.key, second.key, third.key);
        }
    }

    fn is_ahead(&self, other: &Self) -> (found: bool) {
        text::less(self.key.as_str(), other.key.as_str())
    }
}

impl Keyed for SourceOccurrence {
    open spec fn key_of(value: OccurrenceView) -> Seq<char> {
        value.key
    }

    proof fn ahead_by_key(first: OccurrenceView, second: OccurrenceView) {
    }

    fn key(&self) -> (key: &CanonicalKey) {
        &self.key
    }
}

/// A named value that a translation call supplies.
#[derive(Debug, PartialEq, Eq)]
pub struct TranslationArgument {
    pub name: String,
    pub range: ByteRange,
}

/// What a `TranslationArgument` holds.
pub struct ArgumentView {
    pub name: Seq<char>,
    pub range: (usize, usize),
}

impl DeepView for TranslationArgument {
    type V = ArgumentView;

    open spec fn deep_view(&self) -> ArgumentView {
        ArgumentView { name: self.name@, range: self.range.deep_view() }
    }
}

/// The named values that a translation call supplies, as far as its text shows them.
#[derive(Debug, PartialEq, Eq)]
pub struct TranslationArguments {
    pub supplied: Vec<TranslationArgument>,
    /// Whether the call may supply values that its text does not show.
    pub uncertain: bool,
}

/// What `TranslationArguments` hold.
pub struct ArgumentsView {
    pub supplied: Seq<ArgumentView>,
    pub uncertain: bool,
}

impl DeepView for TranslationArguments {
    type V = ArgumentsView;

    open spec fn deep_view(&self) -> ArgumentsView {
        ArgumentsView { supplied: self.supplied.deep_view(), uncertain: self.uncertain }
    }
}

impl Default for TranslationArguments {
    fn default() -> (none: Self)
        ensures
            none.supplied@.len() == 0,
            !none.uncertain,
    {
        TranslationArguments { supplied: Vec::new(), uncertain: false }
    }
}

impl Clone for TranslationArguments {
    fn clone(&self) -> (copy: Self)
        ensures
            copy.deep_view() == self.deep_view(),
    {
        let ghost all = self.supplied.deep_view();
        let mut supplied: Vec<TranslationArgument> = Vec::new();
        let mut n: usize = 0;
        assert(supplied.deep_view() =~= all.take(0));
        while n < self.supplied.len()
            invariant
                n <= self.supplied@.len(),
                all == self.supplied.deep_view(),
                supplied.deep_view() == all.take(n as int),
            decreases self.supplied@.len() - n,
        {
            let argument = &self.supplied[n];
            let ghost before = supplied.deep_view();
            supplied.push(
                TranslationArgument { name: argument.name.clone(), range: argument.range.clone() },
            );
            assert(supplied.deep_view() =~= before.push(all[n as int]));
            assert(all.take(n + 1) =~= before.push(all[n as int]));
            n += 1;
        }
        assert(all.take(n as int) =~= all);
        TranslationArguments { supplied, uncertain: self.uncertain }
    }
}

impl TranslationArguments {
    /// Whether a value called `name` is supplied.
    pub fn has(&self, name: &str) -> (found: bool)
        ensures
            found == exists|i: int|
                0 <= i < self.deep_view().supplied.len() && (
                #[trigger] self.deep_view().supplied[i]).name == name@,
    {
        let ghost all = self.deep_view().supplied;
        let mut i: usize = 0;
        while i < self.supplied.len()
            invariant
                i <= self.supplied@.len(),
                all == self.deep_view().supplied,
                forall|k: int| 0 <= k < i ==> (#[trigger] all[k]).name != name@,
            decreases self.supplied@.len() - i,
        {
            assert(all[i as int] == self.supplied@[i as int].deep_view());
            if text::same(self.supplied[i].name.as_str(), name) {
                return true;
            }
            i += 1;
        }
        false
    }
}

/// A local name through which keys of a scope are used.
#[derive(Debug)]
pub struct ScopeBinding {
    pub name: String,
    pub method: String,
    pub scope: Option<CanonicalKey>,
    pub namespace: Option<String>,
    pub declaration_range: ByteRange,
    pub visibility: ByteRange,
    /// Whether the name is itself the function, not an object with the method.
    pub direct_function: bool,
}

/// What a `ScopeBinding` holds.
pub struct BindingView {
    pub name: Seq<char>,
    pub method: Seq<char>,
    pub scope: Option<Seq<char>>,
    pub namespace: Option<Seq<char>>,
    pub declaration_range: (usize, usize),
    pub visibility: (usize, usize),
    pub direct_function: bool,
}

impl DeepView for ScopeBinding {
    type V = BindingView;

    open spec fn deep_view(&self) -> BindingView {
        BindingView {
            name: self.name@,
            method: self.method@,
            scope: self.scope.deep_view(),
            namespace: self.namespace.deep_view(),
            declaration_range: self.declaration_range.deep_view(),
            visibility: self.visibility.deep_view(),
            direct_function: self.direct_function,
        }
    }
}

impl Clone for ScopeBinding {
    fn clone(&self) -> (copy: Self)
        ensures
            copy == *self,
    {
        ScopeBinding {
            name: self.name.clone(),
            method: self.method.clone(),
            scope: copy_key(&self.scope),
            namespace: text::copy(&self.namespace),
            declaration_range: self.declaration_range.clone(),
            visibility: self.visibility.clone(),
            direct_function: self.direct_function,
        }
    }
}

impl Ranked for ScopeBinding {
    /// Bindings come in the order in which their scopes are declared.
    open spec fn ahead(first: BindingView, second: BindingView) -> bool {
        first.declaration_range.0 < second.declaration_range.0
    }

    proof fn ahead_one_way(first: BindingView, second: BindingView) {
    }

    proof fn ahead_through(first: BindingView, second: BindingView, third: BindingView) {
    }

    fn is_ahead(&self, other: &Self) -> (found: bool) {
        self.declaration_range.0.start < other.declaration_range.0.start
    }
}

/// A copy of a key, where there is one.
pub fn copy_key(key: &Option<CanonicalKey>) -> (copy: Option<CanonicalKey>)
    ensures
        copy == *key,
{
    match key {
        Some(key) => Some(key.clone()),
        None => None,
    }
}

} // verus!
