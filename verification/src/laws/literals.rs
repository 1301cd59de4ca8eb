//! What literals, types, properties and options in source code say.
use crate::analysis;
use crate::key;
use crate::laws::members;
use crate::search;
use crate::source;
use crate::source::OccurrenceKind;
use crate::syntax;
use vstd::prelude::*;

verus! {

/// A text that does not hold a pattern is left as it is by a replacement.
pub proof fn replacing_nothing_changes_nothing(
    text: Seq<char>,
    pattern: Seq<char>,
    by: Seq<char>,
)
    requires
        pattern.len() > 0,
        forall|j: int| !search::occurs_at(text, pattern, j),
    ensures
        search::replaced(text, pattern, by) == text,
{
    search::lemma_find(text, pattern, 0);
    assert(text.subrange(0, text.len() as int) =~= text);
}

/// The first occurrence of a pattern is exchanged, and then those in what follows it.
pub proof fn replacing_goes_from_left_to_right(
    front: Seq<char>,
    pattern: Seq<char>,
    back: Seq<char>,
    by: Seq<char>,
)
    requires
        pattern.len() > 0,
        forall|j: int| 0 <= j < front.len() ==> !search::occurs_at(front + pattern + back, pattern, j),
    ensures
        search::replaced(front + pattern + back, pattern, by) == front + by + search::replaced(
            back,
            pattern,
            by,
        ),
{
    let all = front + pattern + back;
    let at = front.len() as int;
    let next = at + pattern.len();
    search::lemma_find(all, pattern, 0);
    assert(all.subrange(at, next) =~= pattern);
    assert(search::occurs_at(all, pattern, at));
    let i = search::find_from(all, pattern, 0)->0;
    assert(i == at);
    assert(all.subrange(0, at) =~= front);
    lemma_segments_shift(front + pattern, back, pattern, 0);
    assert(all =~= (front + pattern) + back);
    let rest = search::segments_from(all, pattern, next);
    assert(search::segments_from(all, pattern, 0) == seq![front] + rest);
    crate::laws::lemma_segments_joined(all, pattern, next);
    crate::laws::lemma_joined_front(front, rest, by);
}

proof fn lemma_segments_shift(lead: Seq<char>, chars: Seq<char>, pattern: Seq<char>, from: int)
    requires
        pattern.len() > 0,
        0 <= from <= chars.len(),
    ensures
        search::segments_from(lead + chars, pattern, lead.len() + from) == search::segments_from(
            chars,
            pattern,
            from,
        ),
    decreases chars.len() - from,
{
    let all = lead + chars;
    let n = lead.len() as int;
    let width = pattern.len() as int;
    search::lemma_find(all, pattern, n + from);
    search::lemma_find(chars, pattern, from);
    assert forall|j: int| from <= j implies search::occurs_at(chars, pattern, j)
        == search::occurs_at(all, pattern, n + j) by {
        if j + width <= chars.len() {
            assert(chars.subrange(j, j + width) =~= all.subrange(n + j, n + j + width));
        }
    }
    match search::find_from(chars, pattern, from) {
        None => {
            if let Some(i) = search::find_from(all, pattern, n + from) {
                assert(search::occurs_at(chars, pattern, i - n));
            }
            assert(all.subrange(n + from, all.len() as int) =~= chars.subrange(
                from,
                chars.len() as int,
            ));
        },
        Some(d) => {
            assert(search::occurs_at(all, pattern, n + d));
            let i = search::find_from(all, pattern, n + from)->0;
            if i < n + d {
                assert(search::occurs_at(chars, pattern, i - n));
            }
            assert(i == n + d);
            assert(all.subrange(n + from, n + d) =~= chars.subrange(from, d));
            lemma_segments_shift(lead, chars, pattern, d + width);
        },
    }
}

/// A literal in single quotes without a backslash is what stands between the quotes; one in double
/// quotes is what JSON reads it as; nothing else is a literal.
pub proof fn literals_stand_between_quotes(
    file: analysis::SourceView,
    i: int,
    raw: Seq<char>,
    inner: Seq<char>,
)
    requires
        0 <= i,
        syntax::node_text(file.tree, file.text, i) == Some(raw),
    ensures
        raw == seq!['\''] + inner + seq!['\''] && !inner.contains('\\') ==> file.literal(i) == Some(
            inner,
        ),
        raw == seq!['"'] + inner + seq!['"'] && i < file.strings.len() ==> file.literal(i)
            == file.strings[i],
        raw.len() < 2 || raw[0] != raw.last() || (raw[0] != '\'' && raw[0] != '"')
            ==> file.literal(i) is None,
{
    if raw == seq!['\''] + inner + seq!['\''] && !inner.contains('\\') {
        assert(raw.subrange(1, raw.len() - 1) =~= inner);
        let escaped = seq!['\\', '\''];
        let double = seq!['\\', '\\'];
        assert forall|j: int| !search::occurs_at(inner, escaped, j) && !search::occurs_at(
            inner,
            double,
            j,
        ) by {
            if 0 <= j && j + 2 <= inner.len() {
                assert(inner.subrange(j, j + 2)[0] == inner[j]);
            }
        }
        replacing_nothing_changes_nothing(inner, escaped, seq!['\'']);
        replacing_nothing_changes_nothing(inner, double, seq!['\\']);
    }
}

proof fn lemma_replaced_once(front: Seq<char>, pattern: Seq<char>, back: Seq<char>, by: Seq<char>)
    requires
        pattern.len() == 2,
        pattern[0] == '\\',
        !front.contains('\\'),
        !back.contains('\\'),
    ensures
        search::replaced(front + pattern + back, pattern, by) == front + by + back,
{
    let all = front + pattern + back;
    assert forall|j: int| 0 <= j < front.len() implies !search::occurs_at(all, pattern, j) by {
        if search::occurs_at(all, pattern, j) {
            assert(all.subrange(j, j + 2)[0] == all[j]);
            assert(front[j] == '\\');
        }
    }
    assert forall|j: int| !search::occurs_at(back, pattern, j) by {
        if search::occurs_at(back, pattern, j) {
            assert(back.subrange(j, j + 2)[0] == back[j]);
            assert(back[j] == '\\');
        }
    }
    replacing_goes_from_left_to_right(front, pattern, back, by);
    replacing_nothing_changes_nothing(back, pattern, by);
}

proof fn lemma_replaced_none(text: Seq<char>, at: int, pattern: Seq<char>, by: Seq<char>)
    requires
        0 <= at < text.len() - 1,
        forall|i: int| 0 <= i < text.len() && #[trigger] text[i] == '\\' ==> i == at || i == at + 1,
        pattern == seq!['\\', '\''],
        text[at + 1] == '\\',
        at + 2 < text.len() ==> text[at + 2] != '\'',
    ensures
        search::replaced(text, pattern, by) == text,
{
    assert forall|j: int| !search::occurs_at(text, pattern, j) by {
        if search::occurs_at(text, pattern, j) {
            assert(text.subrange(j, j + 2)[0] == text[j]);
            assert(text.subrange(j, j + 2)[1] == text[j + 1]);
        }
    }
    replacing_nothing_changes_nothing(text, pattern, by);
}

/// In single quotes a backslash and a quote stand for the quote, and two backslashes for one.
pub proof fn escapes_are_undone(front: Seq<char>, back: Seq<char>, decoded: Option<Seq<char>>)
    requires
        !front.contains('\\'),
        !back.contains('\\'),
    ensures
        analysis::unquoted(
            seq!['\''] + (front + seq!['\\', '\''] + back) + seq!['\''],
            decoded,
        ) == Some(front + seq!['\''] + back),
        back.len() == 0 || back[0] != '\'' ==> analysis::unquoted(
            seq!['\''] + (front + seq!['\\', '\\'] + back) + seq!['\''],
            decoded,
        ) == Some(front + seq!['\\'] + back),
{
    let escaped = seq!['\\', '\''];
    let double = seq!['\\', '\\'];
    let inner = front + escaped + back;
    let raw = seq!['\''] + inner + seq!['\''];
    assert(raw.subrange(1, raw.len() - 1) =~= inner);
    lemma_replaced_once(front, escaped, back, seq!['\'']);
    let plain = front + seq!['\''] + back;
    assert forall|j: int| !search::occurs_at(plain, double, j) by {
        if search::occurs_at(plain, double, j) {
            assert(plain.subrange(j, j + 2)[0] == plain[j]);
            if j < front.len() {
                assert(front[j] == '\\');
            } else if j > front.len() {
                assert(back[j - front.len() - 1] == '\\');
            }
        }
    }
    replacing_nothing_changes_nothing(plain, double, seq!['\\']);
    if back.len() == 0 || back[0] != '\'' {
        let doubled = front + double + back;
        let text = seq!['\''] + doubled + seq!['\''];
        assert(text.subrange(1, text.len() - 1) =~= doubled);
        let at = front.len() as int;
        assert forall|i: int| 0 <= i < doubled.len() && #[trigger] doubled[i] == '\\' implies i == at
            || i == at + 1 by {
            if i < at {
                assert(front[i] == '\\');
            } else if i > at + 1 {
                assert(back[i - at - 2] == '\\');
            }
        }
        assert(doubled[at + 1] == double[1]);
        if at + 2 < doubled.len() {
            assert(doubled[at + 2] == back[0]);
        }
        lemma_replaced_none(doubled, at, escaped, seq!['\'']);
        lemma_replaced_once(front, double, back, seq!['\\']);
    }
}

/// Whether a literal is a key in the namespace of the file, by a type or a property.
pub open spec fn names_key(
    file: analysis::SourceView,
    literal: int,
    value: Seq<char>,
    found: Option<source::OccurrenceView>,
) -> bool {
    if key::is_key(value, file.separator) {
        found matches Some(occurrence) && occurrence.key == value && occurrence.kind
            == OccurrenceKind::FullKey && occurrence.namespace == file.default_namespace
            && occurrence.range == file.content(literal) && occurrence.uri == file.uri
            && occurrence.scope is None && occurrence.relative_key is None
            && occurrence.arguments is None
    } else {
        found is None
    }
}

/// Whether a name is `configured`, or ends with a dot and `configured`.
pub open spec fn ends_in_name(name: Seq<char>, configured: Seq<char>) -> bool {
    name == configured || exists|lead: Seq<char>| name == #[trigger] (lead + "."@ + configured)
}

/// Whether node `n` is the name of a type for keys, as it is configured at place `k`.
pub open spec fn is_type_for_keys(file: analysis::SourceView, n: int, k: int) -> bool {
    &&& file.tree[n].kind == "type_identifier"@ || file.tree[n].kind == "nested_type_identifier"@
        || file.tree[n].kind == "identifier"@
    &&& 0 <= k < file.key_types.len()
    &&& syntax::node_text(file.tree, file.text, n) matches Some(name) && ends_in_name(
        name,
        file.key_types[k],
    )
}

/// The child for a field, or else the named child at a place.
pub open spec fn child_or(file: analysis::SourceView, i: int, name: Seq<char>, place: int) -> Option<
    int,
> {
    let all = syntax::named_children(file.tree, i);
    match syntax::field_child(file.tree, i, name) {
        Some(child) => Some(child),
        None => if 0 <= place < all.len() {
            Some(all[place])
        } else {
            None
        },
    }
}

/// Whether node `i` gives the expression `literal` the type `ty`: by a declaration, or by `as` or
/// the like, where the expression comes first and the type last.
pub open spec fn gives_type(file: analysis::SourceView, i: int, ty: int, literal: int) -> bool {
    let kind = file.tree[i].kind;
    let last = syntax::named_children(file.tree, i).len() - 1;
    if kind == "variable_declarator"@ {
        syntax::field_child(file.tree, i, "type"@) == Some(ty) && syntax::field_child(
            file.tree,
            i,
            "value"@,
        ) == Some(literal)
    } else {
        (kind == "as_expression"@ || kind == "satisfies_expression"@ || kind == "type_assertion"@)
            && child_or(file, i, "type"@, last) == Some(ty) && child_or(file, i, "expression"@, 0)
            == Some(literal)
    }
}

/// Whether node `i` gives `literal` for the property `name`, of an element or of an object.
pub open spec fn gives_property(
    file: analysis::SourceView,
    i: int,
    name: Seq<char>,
    literal: int,
) -> bool {
    if file.tree[i].kind == "jsx_attribute"@ {
        child_or(file, i, "value"@, 1) == Some(literal) && (child_or(file, i, "name"@, 0) matches Some(
            n,
        ) && syntax::node_text(file.tree, file.text, n) == Some(name))
    } else {
        file.tree[i].kind == "pair"@ && syntax::field_child(file.tree, i, "value"@) == Some(literal)
            && (syntax::field_child(file.tree, i, "key"@) matches Some(n) && file.tree[n].kind
            != "string"@ && syntax::node_text(file.tree, file.text, n) == Some(name))
    }
}

/// A string that is declared with a type, or is given a type by `as`, names a key where the type is
/// one for keys.
pub proof fn types_make_keys(
    file: analysis::SourceView,
    i: int,
    ty: int,
    n: int,
    k: int,
    literal: int,
    value: Seq<char>,
)
    requires
        0 <= literal < file.tree.len(),
        file.tree[literal].kind == "string"@,
        file.literal(literal) == Some(value),
        syntax::walk(file.tree, ty).contains(n),
        is_type_for_keys(file, n, k),
        gives_type(file, i, ty, literal),
    ensures
        names_key(file, literal, value, file.sink_occurrence(i)),
{
    let name = syntax::node_text(file.tree, file.text, n)->0;
    let configured = file.key_types[k];
    if name != configured {
        let lead = choose|lead: Seq<char>| name == #[trigger] (lead + "."@ + configured);
        let end = "."@ + configured;
        assert(name.subrange(name.len() - end.len(), name.len() as int) =~= end);
        assert(search::ends_with(name, end));
    }
    assert(analysis::is_type_name(name, file.key_types[k]));
    assert(file.names_key_type(n));
    let walk = syntax::walk(file.tree, ty);
    assert(file.names_key_type(walk[walk.index_of(n)]));
    assert(file.has_key_type(ty));
    lemma_kinds();
    assert(file.sink(i) == Some(literal));
}

proof fn lemma_kinds()
    ensures
        "variable_declarator"@ != "as_expression"@,
        "variable_declarator"@ != "satisfies_expression"@,
        "variable_declarator"@ != "type_assertion"@,
        "jsx_attribute"@ != "variable_declarator"@,
        "jsx_attribute"@ != "as_expression"@,
        "jsx_attribute"@ != "satisfies_expression"@,
        "jsx_attribute"@ != "type_assertion"@,
        "pair"@ != "variable_declarator"@,
        "pair"@ != "as_expression"@,
        "pair"@ != "satisfies_expression"@,
        "pair"@ != "type_assertion"@,
        "pair"@ != "jsx_attribute"@,
        "jsx_expression"@ != "string"@,
        "parenthesized_expression"@ != "string"@,
{
    reveal_strlit("variable_declarator");
    reveal_strlit("as_expression");
    reveal_strlit("satisfies_expression");
    reveal_strlit("type_assertion");
    reveal_strlit("jsx_attribute");
    reveal_strlit("pair");
    reveal_strlit("string");
    reveal_strlit("jsx_expression");
    reveal_strlit("parenthesized_expression");
    assert("jsx_attribute"@[0] != "as_expression"@[0]);
    assert("variable_declarator"@.len() != "as_expression"@.len());
    assert("pair"@.len() == 4);
    assert("string"@.len() == 6);
    assert("satisfies_expression"@.len() == 20);
    assert("type_assertion"@.len() == 14);
    assert("jsx_expression"@.len() == 14);
    assert("parenthesized_expression"@.len() == 24);
}

/// A string that is the value of a property for keys, of an element or of an object, names a key.
pub proof fn properties_make_keys(
    file: analysis::SourceView,
    i: int,
    name: Seq<char>,
    literal: int,
    value: Seq<char>,
)
    requires
        0 <= literal < file.tree.len(),
        file.tree[literal].kind == "string"@,
        file.literal(literal) == Some(value),
        file.key_props.contains(name),
        gives_property(file, i, name, literal),
    ensures
        names_key(file, literal, value, file.sink_occurrence(i)),
{
    lemma_kinds();
    assert(file.sink(i) == Some(literal));
}

/// A string in braces or brackets counts as the string: the first that the named children lead to.
pub proof fn brackets_are_seen_through(file: analysis::SourceView, i: int, literal: int)
    requires
        0 <= i < file.tree.len(),
        file.tree[i].kind == "jsx_expression"@ || file.tree[i].kind
            == "parenthesized_expression"@,
        syntax::named_children(file.tree, i).len() > 0,
        syntax::named_children(file.tree, i)[0] == literal,
        file.tree[literal].kind == "string"@,
    ensures
        file.literal_in(i) == Some(literal),
{
    lemma_kinds();
    lemma_literal_inside(file, i, i + 1, literal);
}

proof fn lemma_literal_inside(file: analysis::SourceView, p: int, j: int, literal: int)
    requires
        0 <= p < j,
        syntax::named_from(file.tree, p, j).len() > 0,
        syntax::named_from(file.tree, p, j)[0] == literal,
        file.tree[literal].kind == "string"@,
    ensures
        file.literal_inside(p, j) == Some(literal),
    decreases file.tree.len() - j,
{
    if !(syntax::child_at(file.tree, p, j) && file.tree[j].named) {
        lemma_literal_inside(file, p, j + 1, literal);
    } else {
        assert(file.literal_in(j) == Some(j));
    }
}

/// A call with no second argument supplies nothing, one with something else than an object there
/// may supply anything, and one with an object supplies what each of its members does; where one
/// of these does not say what, that is told.
pub proof fn options_supply_values(file: analysis::SourceView, i: int, list: int, m: int)
    requires
        syntax::field_child(file.tree, i, "arguments"@) == Some(list),
    ensures
        ({
            let all = syntax::named_children(file.tree, list);
            let found = file.arguments(i);
            &&& all.len() < 2 ==> found.supplied.len() == 0 && !found.uncertain
            &&& all.len() >= 2 && file.tree[all[1]].kind != "object"@ ==> found.supplied.len() == 0
                && found.uncertain
            &&& all.len() >= 2 && file.tree[all[1]].kind == "object"@ ==> {
                let inside = syntax::named_children(file.tree, all[1]);
                &&& 0 <= m < inside.len() ==> match file.supplied(inside[m]) {
                    Some(argument) => found.supplied.contains(argument),
                    None => found.uncertain,
                }
                &&& found.uncertain ==> exists|k: int|
                    0 <= k < inside.len() && file.supplied(#[trigger] inside[k]) is None
                &&& forall|a: int|
                    0 <= a < found.supplied.len() ==> exists|k: int|
                        0 <= k < inside.len() && file.supplied(#[trigger] inside[k]) == Some(
                            #[trigger] found.supplied[a],
                        )
            }
        }),
{
    let all = syntax::named_children(file.tree, list);
    if all.len() >= 2 && file.tree[all[1]].kind == "object"@ {
        let inside = syntax::named_children(file.tree, all[1]);
        lemma_supplied(file, inside, inside.len() as int);
    }
}

proof fn lemma_supplied(file: analysis::SourceView, inside: Seq<int>, n: int)
    requires
        0 <= n <= inside.len(),
    ensures
        ({
            let found = file.supplied_by(inside, n);
            &&& forall|m: int|
                0 <= m < n ==> match file.supplied(#[trigger] inside[m]) {
                    Some(argument) => found.supplied.contains(argument),
                    None => found.uncertain,
                }
            &&& found.uncertain ==> exists|k: int|
                0 <= k < n && file.supplied(#[trigger] inside[k]) is None
            &&& forall|a: int|
                0 <= a < found.supplied.len() ==> exists|k: int|
                    0 <= k < n && file.supplied(#[trigger] inside[k]) == Some(
                        #[trigger] found.supplied[a],
                    )
        }),
    decreases n,
{
    if n > 0 {
        lemma_supplied(file, inside, n - 1);
        let front = file.supplied_by(inside, n - 1);
        let found = file.supplied_by(inside, n);
        if let Some(argument) = file.supplied(inside[n - 1]) {
            assert(found.supplied[front.supplied.len() as int] == argument);
            assert forall|m: int| 0 <= m < n implies match file.supplied(#[trigger] inside[m]) {
                Some(argument) => found.supplied.contains(argument),
                None => found.uncertain,
            } by {
                if m < n - 1 {
                    if let Some(earlier) = file.supplied(inside[m]) {
                        assert(found.supplied[front.supplied.index_of(earlier)] == earlier);
                    }
                }
            }
        }
        assert forall|a: int| 0 <= a < found.supplied.len() implies exists|k: int|
            0 <= k < n && file.supplied(#[trigger] inside[k]) == Some(
                #[trigger] found.supplied[a],
            ) by {
            if a < front.supplied.len() {
                assert(found.supplied[a] == front.supplied[a]);
                let k = choose|k: int|
                    0 <= k < n - 1 && file.supplied(#[trigger] inside[k]) == Some(
                        front.supplied[a],
                    );
                assert(file.supplied(inside[k]) == Some(found.supplied[a]));
            } else {
                assert(file.supplied(inside[n - 1]) == Some(found.supplied[a]));
            }
        }
    }
}

/// A value is supplied under the name that is written for it: a pair by its key, without quotes
/// where it has them, and a name by itself.
pub proof fn values_are_supplied_by_name(
    file: analysis::SourceView,
    i: int,
    key: int,
    name: Seq<char>,
)
    ensures
        file.tree[i].kind == "pair"@ && syntax::field_child(file.tree, i, "key"@) == Some(key) && (
        file.tree[key].kind == "property_identifier"@ || file.tree[key].kind == "identifier"@)
            && syntax::node_text(file.tree, file.text, key) == Some(name) ==> file.supplied(i)
            == Some(
            source::ArgumentView { name, range: (file.tree[key].start, file.tree[key].end) },
        ),
        file.tree[i].kind == "shorthand_property_identifier"@ && syntax::node_text(
            file.tree,
            file.text,
            i,
        ) == Some(name) ==> file.supplied(i) == Some(
            source::ArgumentView { name, range: (file.tree[i].start, file.tree[i].end) },
        ),
{
    reveal_strlit("pair");
    reveal_strlit("shorthand_property_identifier");
    reveal_strlit("property_identifier");
    reveal_strlit("identifier");
    reveal_strlit("string");
    assert("pair"@.len() != "shorthand_property_identifier"@.len());
    assert("string"@.len() != "property_identifier"@.len());
    assert("string"@.len() != "identifier"@.len());
}

} // verus!
