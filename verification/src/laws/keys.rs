//! What keys are, and how they are put together.
use crate::key;
use crate::laws;
use crate::search;
use vstd::prelude::*;

verus! {

/// Whether a separator stands at `j` with nothing, or another separator, behind it.
pub open spec fn leaves_a_gap(value: Seq<char>, separator: Seq<char>, j: int) -> bool {
    &&& search::occurs_at(value, separator, j)
    &&& j + separator.len() == value.len() || search::occurs_at(
        value,
        separator,
        j + separator.len(),
    )
}

pub(crate) proof fn lemma_apart(value: Seq<char>, separator: Seq<char>, i: int, j: int)
    requires
        laws::is_unbordered(separator),
        search::occurs_at(value, separator, i),
        search::occurs_at(value, separator, j),
        i < j,
    ensures
        i + separator.len() <= j,
{
    let width = separator.len() as int;
    if j < i + width {
        let k = i + width - j;
        assert(separator.take(k) =~= value.subrange(j, j + width).take(k));
        assert(separator.skip(width - k) =~= value.subrange(i, i + width).skip(width - k));
        assert(value.subrange(j, j + width).take(k) =~= value.subrange(i, i + width).skip(
            width - k,
        ));
        assert(separator.take(k) == separator.skip(separator.len() - k));
        assert(false);
    }
}

proof fn lemma_none_empty(value: Seq<char>, separator: Seq<char>, from: int)
    requires
        separator.len() > 0,
        laws::is_unbordered(separator),
        0 <= from <= value.len(),
    ensures
        search::none_empty(search::segments_from(value, separator, from)) <==> from < value.len()
            && !search::occurs_at(value, separator, from) && forall|j: int|
            from <= j ==> !#[trigger] leaves_a_gap(value, separator, j),
    decreases value.len() - from,
{
    let width = separator.len() as int;
    let all = search::segments_from(value, separator, from);
    search::lemma_find(value, separator, from);
    match search::find_from(value, separator, from) {
        None => {
            assert(all == seq![value.subrange(from, value.len() as int)]);
            assert(all[0].len() == value.len() - from);
        },
        Some(i) => {
            lemma_none_empty(value, separator, i + width);
            let rest = search::segments_from(value, separator, i + width);
            let first = value.subrange(from, i);
            assert(all == seq![first] + rest);
            if search::none_empty(all) {
                assert(all[0] == first);
                assert forall|k: int| 0 <= k < rest.len() implies (#[trigger] rest[k]).len() > 0 by {
                    assert(all[k + 1] == rest[k]);
                }
                assert(search::none_empty(rest));
                assert forall|j: int| from <= j implies !#[trigger] leaves_a_gap(
                    value,
                    separator,
                    j,
                ) by {
                    if leaves_a_gap(value, separator, j) && i < j {
                        lemma_apart(value, separator, i, j);
                    }
                }
            }
            if from < value.len() && !search::occurs_at(value, separator, from) && forall|j: int|
                from <= j ==> !#[trigger] leaves_a_gap(value, separator, j) {
                assert(!leaves_a_gap(value, separator, i));
                assert(search::none_empty(rest));
                assert forall|k: int| 0 <= k < all.len() implies (#[trigger] all[k]).len() > 0 by {
                    if k > 0 {
                        assert(all[k] == rest[k - 1]);
                    }
                }
            }
        },
    }
}

/// A text is a key where it is not empty, no separator begins or ends it, and no two separators
/// follow each other, for a separator that cannot overlap itself.
pub proof fn keys_have_no_empty_segments(value: Seq<char>, separator: Seq<char>)
    requires
        separator.len() > 0,
        laws::is_unbordered(separator),
    ensures
        key::is_key(value, separator) <==> value.len() > 0 && !search::occurs_at(
            value,
            separator,
            0,
        ) && forall|j: int| 0 <= j ==> !#[trigger] leaves_a_gap(value, separator, j),
        key::canonical(value, separator) == if key::is_key(value, separator) {
            Some(value)
        } else {
            None
        },
{
    lemma_none_empty(value, separator, 0);
}

/// A key under a scope that is a key is a key, for a separator that cannot overlap itself.
pub proof fn keys_join_to_keys(scope: Seq<char>, relative: Seq<char>, separator: Seq<char>)
    requires
        key::is_key(scope, separator),
        key::is_key(relative, separator),
        laws::is_unbordered(separator),
    ensures
        key::is_key(scope + separator + relative, separator),
        key::joined_key(scope, relative, separator) == Some(scope + separator + relative),
{
    let whole = scope + separator + relative;
    let width = separator.len() as int;
    let at = scope.len() as int;
    let next = at + width;
    keys_have_no_empty_segments(scope, separator);
    keys_have_no_empty_segments(relative, separator);
    keys_have_no_empty_segments(whole, separator);
    assert(whole.subrange(at, next) =~= separator);
    assert(search::occurs_at(whole, separator, at));
    assert forall|j: int| #[trigger] search::occurs_at(whole, separator, j) implies j == at || (j
        + width <= at && search::occurs_at(scope, separator, j)) || (next <= j
        && search::occurs_at(relative, separator, j - next)) by {
        if j < at {
            lemma_apart(whole, separator, j, at);
            assert(scope.subrange(j, j + width) =~= whole.subrange(j, j + width));
        } else if at < j {
            lemma_apart(whole, separator, at, j);
            assert(relative.subrange(j - next, j - next + width) =~= whole.subrange(j, j + width));
        }
    }
    assert forall|j: int| 0 <= j implies !#[trigger] leaves_a_gap(whole, separator, j) by {
        if leaves_a_gap(whole, separator, j) {
            if j < at {
                assert(!leaves_a_gap(scope, separator, j));
            } else if j == at {
                assert(search::occurs_at(relative, separator, 0));
            } else {
                assert(!leaves_a_gap(relative, separator, j - next));
            }
        }
    }
}

/// Whether a text is a namespace, a colon and a key.
pub open spec fn names_both(
    value: Seq<char>,
    separator: Seq<char>,
    namespace: Seq<char>,
    key: Seq<char>,
) -> bool {
    &&& value == namespace + seq![':'] + key
    &&& namespace.len() > 0
    &&& !namespace.contains(':')
    &&& key::is_key(key, separator)
}

/// A text is read as a namespace and a key exactly where it is one, a colon and the other.
pub proof fn namespaces_stand_before_a_colon(
    value: Seq<char>,
    separator: Seq<char>,
    namespace: Seq<char>,
    key: Seq<char>,
)
    ensures
        key::namespace_and_key(value, separator) == Some((namespace, key)) <==> names_both(
            value,
            separator,
            namespace,
            key,
        ),
{
    let colon = seq![':'];
    search::lemma_find(value, colon, 0);
    if key::namespace_and_key(value, separator) == Some((namespace, key)) {
        let i = search::find_from(value, colon, 0)->0;
        assert(value.subrange(i, i + 1) == colon);
        assert(value[i] == value.subrange(i, i + 1)[0]);
        assert(value =~= namespace + colon + key);
        if namespace.contains(':') {
            let j = namespace.index_of(':');
            assert(value.subrange(j, j + 1) =~= colon);
            assert(search::occurs_at(value, colon, j));
        }
    }
    if names_both(value, separator, namespace, key) {
        let at = namespace.len() as int;
        assert(value.subrange(at, at + 1) =~= colon);
        assert(search::occurs_at(value, colon, at));
        let i = search::find_from(value, colon, 0)->0;
        if i < at {
            assert(value.subrange(i, i + 1) == colon);
            assert(value.subrange(i, i + 1)[0] == value[i]);
            assert(namespace[i] == ':');
        }
        assert(i == at);
        assert(value.take(at) =~= namespace);
        assert(value.skip(at + 1) =~= key);
    }
}

} // verus!
