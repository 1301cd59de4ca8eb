//! Which keys the members of a JSON object stand for.
use crate::dictionary;
use crate::dictionary::EntryKind;
use crate::key;
use crate::laws::members;
use crate::laws::tree;
use crate::search;
use crate::syntax;
use vstd::prelude::*;

verus! {

/// Whether node `j` is a member of the object `o`, with the name `segment` at node `name` and the
/// value at node `value`.
pub open spec fn is_member(
    file: dictionary::DictionaryView,
    o: int,
    j: int,
    name: int,
    segment: Seq<char>,
    value: int,
) -> bool {
    &&& tree::is_named_child(file.tree, o, j)
    &&& file.tree[o].kind == "object"@
    &&& file.tree[j].kind == "pair"@
    &&& syntax::field_child(file.tree, j, "key"@) == Some(name)
    &&& syntax::field_child(file.tree, j, "value"@) == Some(value)
    &&& name < file.strings.len()
    &&& file.strings[name] == Some(segment)
}

/// Whether node `v` is the value that the names in `path`, one after the other, lead to from the
/// outermost value.
pub open spec fn leads_to(file: dictionary::DictionaryView, path: Seq<Seq<char>>, v: int) -> bool
    decreases path.len(),
{
    if path.len() == 0 {
        let top = syntax::named_children(file.tree, 0);
        v == if top.len() > 0 {
            top[0]
        } else {
            0
        }
    } else {
        exists|o: int, j: int, name: int| #[trigger]
            is_member(file, o, j, name, path.last(), v) && leads_to(file, path.drop_last(), o)
    }
}

/// Whether an entry is that of the member `j` of an object that `path` leads to: its key is the
/// path with separators between, and it is an object, or a string with its text.
pub open spec fn is_entry_of(
    file: dictionary::DictionaryView,
    name: int,
    value: int,
    path: Seq<Seq<char>>,
    entry: dictionary::EntryView,
) -> bool {
    &&& entry.key == search::joined(path, file.separator)
    &&& key::is_key(entry.key, file.separator)
    &&& entry.uri == file.uri
    &&& entry.locale == file.locale
    &&& entry.namespace is None
    &&& entry.key_range == syntax::inner_range(file.tree[name])
    &&& entry.value_range == (file.tree[value].start, file.tree[value].end)
    &&& if file.tree[value].kind == "object"@ {
        entry.kind == EntryKind::Object && entry.value is None
    } else {
        entry.kind == EntryKind::Leaf && file.tree[value].kind == "string"@ && value
            < file.strings.len() && entry.value is Some && entry.value == file.strings[value]
    }
}

proof fn lemma_entry(
    file: dictionary::DictionaryView,
    name: int,
    value: int,
    path: Seq<Seq<char>>,
    entry: dictionary::EntryView,
)
    ensures
        file.entry(name, value, path) == Some(entry) <==> is_entry_of(
            file,
            name,
            value,
            path,
            entry,
        ),
{
    reveal_strlit("object");
    reveal_strlit("string");
    assert("object"@[0] != "string"@[0]);
}

proof fn lemma_pair(
    file: dictionary::DictionaryView,
    o: int,
    j: int,
    name: int,
    segment: Seq<char>,
    value: int,
)
    requires
        tree::is_named_child(file.tree, o, j),
        file.tree[o].kind == "object"@,
    ensures
        file.pair(j) == Some((name, segment, value)) <==> is_member(
            file,
            o,
            j,
            name,
            segment,
            value,
        ),
        file.pair(j) == Some((name, segment, value)) ==> j < value < file.tree.len(),
{
    syntax::lemma_field_from(file.tree, j, "value"@, j + 1);
}

proof fn lemma_member_entries(
    file: dictionary::DictionaryView,
    o: int,
    from: int,
    j: int,
    name: int,
    segment: Seq<char>,
    value: int,
    path: Seq<Seq<char>>,
    entry: dictionary::EntryView,
)
    requires
        0 <= o < from <= j,
        is_member(file, o, j, name, segment, value),
        file.entry(name, value, path.push(segment)) == Some(entry) || file.entries_in(
            value,
            path.push(segment),
        ).contains(entry),
    ensures
        file.entries_inside(o, from, path).contains(entry),
    decreases file.tree.len() - from,
{
    assert(file.tree[from].depth > file.tree[o].depth);
    let all = file.entries_inside(o, from, path);
    let rest = file.entries_inside(o, from + 1, path);
    if from == j {
        lemma_pair(file, o, j, name, segment, value);
        let below = path.push(segment);
        let own = syntax::listed(file.entry(name, value, below));
        let inner = file.entries_in(value, below);
        assert(all == own + inner + rest);
        members::lemma_added(own, inner, entry);
        members::lemma_added(own + inner, rest, entry);
        if file.entry(name, value, below) == Some(entry) {
            assert(own[0] == entry);
        }
    } else {
        lemma_member_entries(file, o, from + 1, j, name, segment, value, path, entry);
        if syntax::child_at(file.tree, o, from) && file.tree[from].named {
            if let Some((n, s, v)) = file.pair(from) {
                let below = path.push(s);
                let own = syntax::listed(file.entry(n, v, below));
                let inner = file.entries_in(v, below);
                members::lemma_added(own + inner, rest, entry);
            }
        }
    }
}

proof fn lemma_below(
    file: dictionary::DictionaryView,
    path: Seq<Seq<char>>,
    v: int,
    entry: dictionary::EntryView,
)
    requires
        leads_to(file, path, v),
        file.entries_in(v, path).contains(entry),
    ensures
        file.entries().contains(entry),
    decreases path.len(),
{
    if path.len() == 0 {
        assert(path =~= Seq::<Seq<char>>::empty());
    } else {
        let (o, j, name) = choose|o: int, j: int, name: int| #[trigger]
            is_member(file, o, j, name, path.last(), v) && leads_to(file, path.drop_last(), o);
        assert(path.drop_last().push(path.last()) =~= path);
        lemma_start(file, path.drop_last(), o);
        lemma_member_entries(
            file,
            o,
            o + 1,
            j,
            name,
            path.last(),
            v,
            path.drop_last(),
            entry,
        );
        lemma_below(file, path.drop_last(), o, entry);
    }
}

proof fn lemma_start(file: dictionary::DictionaryView, path: Seq<Seq<char>>, v: int)
    requires
        leads_to(file, path, v),
    ensures
        0 <= v,
    decreases path.len(),
{
    if path.len() == 0 {
        syntax::lemma_named_from(file.tree, 0, 1);
    } else {
        let (o, j, name) = choose|o: int, j: int, name: int| #[trigger]
            is_member(file, o, j, name, path.last(), v) && leads_to(file, path.drop_last(), o);
        lemma_start(file, path.drop_last(), o);
        lemma_pair(file, o, j, name, path.last(), v);
    }
}

/// Every member of an object in a dictionary, however deep, that is an object or a string has an
/// entry under the names that lead to it, with separators between them, where these make a key.
pub proof fn members_have_entries(
    file: dictionary::DictionaryView,
    path: Seq<Seq<char>>,
    o: int,
    j: int,
    name: int,
    segment: Seq<char>,
    value: int,
    entry: dictionary::EntryView,
)
    requires
        leads_to(file, path, o),
        is_member(file, o, j, name, segment, value),
        is_entry_of(file, name, value, path.push(segment), entry),
    ensures
        file.entries().contains(entry),
{
    lemma_start(file, path, o);
    lemma_entry(file, name, value, path.push(segment), entry);
    lemma_member_entries(file, o, o + 1, j, name, segment, value, path, entry);
    lemma_below(file, path, o, entry);
}

/// Whether an entry is that of some member.
pub open spec fn comes_from_a_member(
    file: dictionary::DictionaryView,
    entry: dictionary::EntryView,
) -> bool {
    exists|path: Seq<Seq<char>>, o: int, j: int, name: int, segment: Seq<char>, value: int|
        leads_to(file, path, o) && #[trigger] is_member(file, o, j, name, segment, value)
            && is_entry_of(file, name, value, #[trigger] path.push(segment), entry)
}

proof fn lemma_only_in(
    file: dictionary::DictionaryView,
    i: int,
    path: Seq<Seq<char>>,
    entry: dictionary::EntryView,
)
    requires
        0 <= i,
        leads_to(file, path, i),
        file.entries_in(i, path).contains(entry),
    ensures
        comes_from_a_member(file, entry),
    decreases 2 * (file.tree.len() - i),
{
    lemma_only_inside(file, i, i + 1, path, entry);
}

proof fn lemma_only_inside(
    file: dictionary::DictionaryView,
    o: int,
    from: int,
    path: Seq<Seq<char>>,
    entry: dictionary::EntryView,
)
    requires
        0 <= o < from,
        o < file.tree.len(),
        file.tree[o].kind == "object"@,
        leads_to(file, path, o),
        forall|k: int|
            o < k < from && k < file.tree.len() ==> (#[trigger] file.tree[k]).depth
                > file.tree[o].depth,
        file.entries_inside(o, from, path).contains(entry),
    ensures
        comes_from_a_member(file, entry),
    decreases 2 * (file.tree.len() - from) + 1,
{
    let rest = file.entries_inside(o, from + 1, path);
    if syntax::child_at(file.tree, o, from) && file.tree[from].named && file.pair(from) is Some {
        let (name, segment, value) = file.pair(from)->0;
        assert(tree::is_named_child(file.tree, o, from));
        lemma_pair(file, o, from, name, segment, value);
        let below = path.push(segment);
        let own = syntax::listed(file.entry(name, value, below));
        let inner = file.entries_in(value, below);
        assert(file.entries_inside(o, from, path) == own + inner + rest);
        members::lemma_added(own, inner, entry);
        members::lemma_added(own + inner, rest, entry);
        if own.contains(entry) {
            assert(file.entry(name, value, below) == Some(entry));
            lemma_entry(file, name, value, below, entry);
        } else if inner.contains(entry) {
            assert(below.drop_last() =~= path);
            assert(below.last() == segment);
            assert(leads_to(file, below, value));
            lemma_only_in(file, value, below, entry);
        } else {
            lemma_only_inside(file, o, from + 1, path, entry);
        }
    } else {
        lemma_only_inside(file, o, from + 1, path, entry);
    }
}

/// Every entry of a dictionary is that of a member.
pub proof fn entries_come_from_members(
    file: dictionary::DictionaryView,
    entry: dictionary::EntryView,
)
    requires
        file.entries().contains(entry),
    ensures
        comes_from_a_member(file, entry),
{
    let top = syntax::named_children(file.tree, 0);
    let start = if top.len() > 0 {
        top[0]
    } else {
        0
    };
    syntax::lemma_named_from(file.tree, 0, 1);
    assert(leads_to(file, Seq::empty(), start));
    lemma_only_in(file, start, Seq::empty(), entry);
}

} // verus!
