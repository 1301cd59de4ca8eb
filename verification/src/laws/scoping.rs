//! Which translator a name in source code stands for, and which functions are configured.
use crate::analysis;
use crate::config;
use crate::source;
use vstd::prelude::*;

verus! {

/// Whether a call of `callee` at `at` can be a call of a translator: it is visible there, and is
/// called by its own name, or by its method behind a dot.
pub open spec fn answers_to(binding: source::BindingView, callee: Seq<char>, at: usize) -> bool {
    &&& binding.visibility.0 <= at
    &&& at <= binding.visibility.1
    &&& if binding.direct_function {
        callee == binding.name
    } else {
        callee == binding.name + "."@ + binding.method
    }
}

/// Whether the translator at place `k` is the one that a call of `callee` at `at` uses: of those
/// that the call can be of, the last.
pub open spec fn is_used_by(
    bindings: Seq<source::BindingView>,
    k: int,
    callee: Seq<char>,
    at: usize,
) -> bool {
    &&& 0 <= k < bindings.len()
    &&& answers_to(bindings[k], callee, at)
    &&& forall|j: int| k < j < bindings.len() ==> !answers_to(#[trigger] bindings[j], callee, at)
}

proof fn lemma_resolved(
    bindings: Seq<source::BindingView>,
    n: int,
    callee: Seq<char>,
    at: usize,
)
    requires
        0 <= n <= bindings.len(),
    ensures
        match analysis::resolved(bindings, n, callee, at) {
            Some(binding) => exists|k: int|
                0 <= k < n && #[trigger] bindings[k] == binding && answers_to(
                    bindings[k],
                    callee,
                    at,
                ) && forall|j: int|
                    k < j < n ==> !answers_to(#[trigger] bindings[j], callee, at),
            None => forall|j: int| 0 <= j < n ==> !answers_to(#[trigger] bindings[j], callee, at),
        },
    decreases n,
{
    if n > 0 {
        lemma_resolved(bindings, n - 1, callee, at);
        if answers_to(bindings[n - 1], callee, at) {
            assert(bindings[n - 1] == analysis::resolved(bindings, n, callee, at)->0);
        }
    }
}

/// The translator that a call uses is the last of those that it can be of; there is none where it
/// can be of none.
pub proof fn the_last_translator_is_used(
    bindings: Seq<source::BindingView>,
    callee: Seq<char>,
    at: usize,
    k: int,
)
    ensures
        is_used_by(bindings, k, callee, at) ==> analysis::resolved(
            bindings,
            bindings.len() as int,
            callee,
            at,
        ) == Some(bindings[k]),
        (forall|j: int| 0 <= j < bindings.len() ==> !answers_to(#[trigger] bindings[j], callee, at))
            <==> analysis::resolved(bindings, bindings.len() as int, callee, at) is None,
{
    lemma_resolved(bindings, bindings.len() as int, callee, at);
    if is_used_by(bindings, k, callee, at) {
        let binding = analysis::resolved(bindings, bindings.len() as int, callee, at)->0;
        assert(answers_to(bindings[k], callee, at));
        let m = choose|m: int|
            0 <= m < bindings.len() && #[trigger] bindings[m] == binding && answers_to(
                bindings[m],
                callee,
                at,
            ) && forall|j: int|
                m < j < bindings.len() ==> !answers_to(#[trigger] bindings[j], callee, at);
        if m < k {
            assert(!answers_to(bindings[k], callee, at));
        } else if k < m {
            assert(!answers_to(bindings[m], callee, at));
        }
    }
}

/// Whether a scoped function is configured under a name.
pub open spec fn is_scoped_name(
    functions: Seq<config::ScopedFunctionView>,
    name: Seq<char>,
) -> bool {
    exists|i: int| 0 <= i < functions.len() && (#[trigger] functions[i]).function_name == name
}

/// Whether a function for whole keys is configured under a name.
pub open spec fn is_full_key_name(
    functions: Seq<config::FullKeyFunctionView>,
    name: Seq<char>,
) -> bool {
    exists|i: int| 0 <= i < functions.len() && (#[trigger] functions[i]).function_name == name
}

/// Whether the scoped function at place `i` is the one that is configured under a name: the first.
pub open spec fn is_scoped_function(
    functions: Seq<config::ScopedFunctionView>,
    i: int,
    name: Seq<char>,
) -> bool {
    &&& 0 <= i < functions.len()
    &&& functions[i].function_name == name
    &&& forall|j: int| 0 <= j < i ==> (#[trigger] functions[j]).function_name != name
}

/// Whether the function for whole keys at place `i` is the one that is configured under a name: the
/// first.
pub open spec fn is_full_key_function(
    functions: Seq<config::FullKeyFunctionView>,
    i: int,
    name: Seq<char>,
) -> bool {
    &&& 0 <= i < functions.len()
    &&& functions[i].function_name == name
    &&& forall|j: int| 0 <= j < i ==> (#[trigger] functions[j]).function_name != name
}

proof fn lemma_scoped_from(
    functions: Seq<config::ScopedFunctionView>,
    name: Seq<char>,
    from: int,
)
    requires
        0 <= from <= functions.len(),
    ensures
        match config::scoped_from(functions, name, from) {
            Some(function) => exists|i: int|
                from <= i < functions.len() && #[trigger] functions[i] == function
                    && function.function_name == name && forall|j: int|
                    from <= j < i ==> (#[trigger] functions[j]).function_name != name,
            None => forall|j: int|
                from <= j < functions.len() ==> (#[trigger] functions[j]).function_name != name,
        },
    decreases functions.len() - from,
{
    if from < functions.len() {
        lemma_scoped_from(functions, name, from + 1);
        if functions[from].function_name == name {
            assert(functions[from] == config::scoped_from(functions, name, from)->0);
        }
    }
}

proof fn lemma_full_key_from(
    functions: Seq<config::FullKeyFunctionView>,
    name: Seq<char>,
    from: int,
)
    requires
        0 <= from <= functions.len(),
    ensures
        match config::full_key_from(functions, name, from) {
            Some(function) => exists|i: int|
                from <= i < functions.len() && #[trigger] functions[i] == function
                    && function.function_name == name && forall|j: int|
                    from <= j < i ==> (#[trigger] functions[j]).function_name != name,
            None => forall|j: int|
                from <= j < functions.len() ==> (#[trigger] functions[j]).function_name != name,
        },
    decreases functions.len() - from,
{
    if from < functions.len() {
        lemma_full_key_from(functions, name, from + 1);
        if functions[from].function_name == name {
            assert(functions[from] == config::full_key_from(functions, name, from)->0);
        }
    }
}

/// A scoped function is found by its name; of two with one name the first is.
pub proof fn scoped_functions_are_found(
    functions: Seq<config::ScopedFunctionView>,
    name: Seq<char>,
    i: int,
)
    ensures
        is_scoped_name(functions, name) <==> config::scoped_from(functions, name, 0) is Some,
        is_scoped_function(functions, i, name) ==> config::scoped_from(functions, name, 0) == Some(
            functions[i],
        ),
{
    lemma_scoped_from(functions, name, 0);
    if let Some(function) = config::scoped_from(functions, name, 0) {
        let m = choose|m: int|
            0 <= m < functions.len() && #[trigger] functions[m] == function && forall|j: int|
                0 <= j < m ==> (#[trigger] functions[j]).function_name != name;
        assert(functions[m].function_name == name);
        if is_scoped_function(functions, i, name) {
            assert(i == m);
        }
    }
}

/// The place of the scoped function that is found by a name.
pub(crate) proof fn scoped_place(
    functions: Seq<config::ScopedFunctionView>,
    name: Seq<char>,
) -> (i: int)
    requires
        config::scoped_from(functions, name, 0) is Some,
    ensures
        is_scoped_function(functions, i, name),
        config::scoped_from(functions, name, 0) == Some(functions[i]),
{
    lemma_scoped_from(functions, name, 0);
    let function = config::scoped_from(functions, name, 0)->0;
    choose|m: int|
        0 <= m < functions.len() && #[trigger] functions[m] == function && forall|j: int|
            0 <= j < m ==> (#[trigger] functions[j]).function_name != name
}

/// A function for whole keys is found by its name; of two with one name the first is.
pub proof fn full_key_functions_are_found(
    functions: Seq<config::FullKeyFunctionView>,
    name: Seq<char>,
    i: int,
)
    ensures
        is_full_key_name(functions, name) <==> config::full_key_from(functions, name, 0) is Some,
        is_full_key_function(functions, i, name) ==> config::full_key_from(functions, name, 0)
            == Some(functions[i]),
{
    lemma_full_key_from(functions, name, 0);
    if let Some(function) = config::full_key_from(functions, name, 0) {
        let m = choose|m: int|
            0 <= m < functions.len() && #[trigger] functions[m] == function && forall|j: int|
                0 <= j < m ==> (#[trigger] functions[j]).function_name != name;
        assert(functions[m].function_name == name);
        if is_full_key_function(functions, i, name) {
            assert(i == m);
        }
    }
}

} // verus!
