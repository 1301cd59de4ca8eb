//! Syntax trees as lists of nodes in the order in which they open, each with its depth.
use crate::json;
use crate::text;
use crate::ByteRange;
use vstd::prelude::*;

verus! {

/// One node of a syntax tree.
#[derive(Debug)]
pub struct SyntaxNode {
    /// What the grammar calls it.
    pub kind: String,
    /// Whether the grammar gives it a name of its own, unlike punctuation.
    pub named: bool,
    /// The field of its parent that it fills.
    pub field: Option<String>,
    /// How many nodes enclose it.
    pub depth: usize,
    /// The byte range that it covers.
    pub start: usize,
    pub end: usize,
}

/// What a `SyntaxNode` holds.
pub struct NodeView {
    pub kind: Seq<char>,
    pub named: bool,
    pub field: Option<Seq<char>>,
    pub depth: usize,
    pub start: usize,
    pub end: usize,
}

impl DeepView for SyntaxNode {
    type V = NodeView;

    open spec fn deep_view(&self) -> NodeView {
        NodeView {
            kind: self.kind@,
            named: self.named,
            field: self.field.deep_view(),
            depth: self.depth,
            start: self.start,
            end: self.end,
        }
    }
}

/// The nodes of the tree that the TSX grammar gives `text`.
pub uninterp spec fn tsx_tree(text: Seq<char>) -> Option<Seq<NodeView>>;

/// The nodes of the tree that the JSON grammar gives `text`.
pub uninterp spec fn json_tree(text: Seq<char>) -> Option<Seq<NodeView>>;

/// Calls `tree_sitter::Parser::parse` with the TSX grammar and lists the nodes of the tree, the
/// descendants of its root by index; the list is named by `tsx_tree`.
#[verifier::external_body]
pub(crate) fn parse_tsx(text: &str) -> (nodes: Option<Vec<SyntaxNode>>)
    ensures
        nodes.deep_view() == tsx_tree(text@),
{
    let mut parser = tree_sitter::Parser::new();
    parser.set_language(&tree_sitter_typescript::LANGUAGE_TSX.into()).ok()?;
    let tree = parser.parse(text, None)?;
    let mut at = tree.walk();
    let count = tree.root_node().descendant_count();
    Some((0..count).map(|index| {
        at.goto_descendant(index);
        let (node, field) = (at.node(), at.field_name().map(String::from));
        let (named, depth) = (node.is_named(), at.depth() as usize);
        let (start, end) = (node.start_byte(), node.end_byte());
        SyntaxNode { kind: String::from(node.kind()), named, field, depth, start, end }
    }).collect())
}

/// Calls `tree_sitter::Parser::parse` with the JSON grammar and lists the nodes of the tree, the
/// descendants of its root by index; the list is named by `json_tree`.
#[verifier::external_body]
pub(crate) fn parse_json(text: &str) -> (nodes: Option<Vec<SyntaxNode>>)
    ensures
        nodes.deep_view() == json_tree(text@),
{
    let mut parser = tree_sitter::Parser::new();
    parser.set_language(&tree_sitter_json::LANGUAGE.into()).ok()?;
    let tree = parser.parse(text, None)?;
    let mut at = tree.walk();
    let count = tree.root_node().descendant_count();
    Some((0..count).map(|index| {
        at.goto_descendant(index);
        let (node, field) = (at.node(), at.field_name().map(String::from));
        let (named, depth) = (node.is_named(), at.depth() as usize);
        let (start, end) = (node.start_byte(), node.end_byte());
        SyntaxNode { kind: String::from(node.kind()), named, field, depth, start, end }
    }).collect())
}

/// Whether the nodes inside of `p` end before `j`.
pub open spec fn closed_at(tree: Seq<NodeView>, p: int, j: int) -> bool {
    j >= tree.len() || tree[j].depth <= tree[p].depth
}

/// Whether node `j`, one of those inside of `p`, is a child of `p`.
pub open spec fn child_at(tree: Seq<NodeView>, p: int, j: int) -> bool {
    tree[j].depth == tree[p].depth + 1
}

/// The named children of `p` from node `j` on.
pub open spec fn named_from(tree: Seq<NodeView>, p: int, j: int) -> Seq<int>
    decreases tree.len() - j,
{
    if closed_at(tree, p, j) {
        Seq::empty()
    } else if child_at(tree, p, j) && tree[j].named {
        seq![j] + named_from(tree, p, j + 1)
    } else {
        named_from(tree, p, j + 1)
    }
}

/// The named children of `p`.
pub open spec fn named_children(tree: Seq<NodeView>, p: int) -> Seq<int> {
    named_from(tree, p, p + 1)
}

/// The first child of `p` from node `j` on that fills the field `name`.
pub open spec fn field_from(tree: Seq<NodeView>, p: int, name: Seq<char>, j: int) -> Option<int>
    decreases tree.len() - j,
{
    if closed_at(tree, p, j) {
        None
    } else if child_at(tree, p, j) && tree[j].field == Some(name) {
        Some(j)
    } else {
        field_from(tree, p, name, j + 1)
    }
}

/// The child of `p` that fills the field `name`.
pub open spec fn field_child(tree: Seq<NodeView>, p: int, name: Seq<char>) -> Option<int> {
    field_from(tree, p, name, p + 1)
}

/// The last node before `j` that encloses `i`.
pub open spec fn parent_before(tree: Seq<NodeView>, i: int, j: int) -> Option<int>
    decreases j,
{
    if j <= 0 {
        None
    } else if tree[j - 1].depth < tree[i].depth {
        Some(j - 1)
    } else {
        parent_before(tree, i, j - 1)
    }
}

/// The parent of node `i`.
pub open spec fn parent(tree: Seq<NodeView>, i: int) -> Option<int> {
    parent_before(tree, i, i)
}

pub proof fn lemma_parent_before(tree: Seq<NodeView>, i: int, j: int)
    ensures
        parent_before(tree, i, j) matches Some(p) ==> 0 <= p < j,
    decreases j,
{
    if j > 0 && tree[j - 1].depth >= tree[i].depth {
        lemma_parent_before(tree, i, j - 1);
    }
}

pub proof fn lemma_named_from(tree: Seq<NodeView>, p: int, j: int)
    ensures
        forall|k: int|
            0 <= k < named_from(tree, p, j).len() ==> j <= #[trigger] named_from(tree, p, j)[k]
                < tree.len(),
    decreases tree.len() - j,
{
    if !closed_at(tree, p, j) {
        lemma_named_from(tree, p, j + 1);
        let rest = named_from(tree, p, j + 1);
        assert forall|k: int| 0 <= k < named_from(tree, p, j).len() implies j
            <= #[trigger] named_from(tree, p, j)[k] < tree.len() by {
            if child_at(tree, p, j) && tree[j].named {
                if k > 0 {
                    assert(named_from(tree, p, j)[k] == rest[k - 1]);
                }
            } else {
                assert(named_from(tree, p, j)[k] == rest[k]);
            }
        }
    }
}

pub proof fn lemma_field_from(tree: Seq<NodeView>, p: int, name: Seq<char>, j: int)
    ensures
        field_from(tree, p, name, j) matches Some(c) ==> j <= c < tree.len(),
    decreases tree.len() - j,
{
    if !closed_at(tree, p, j) {
        lemma_field_from(tree, p, name, j + 1);
    }
}

/// The nodes that a walk from `i` through named children comes to, each before those inside of it.
pub open spec fn walk(tree: Seq<NodeView>, i: int) -> Seq<int>
    decreases 2 * (tree.len() - i),
{
    if i < tree.len() {
        seq![i] + walk_inside(tree, i, i + 1)
    } else {
        Seq::empty()
    }
}

/// The part of the walk inside of `p` that starts at node `j`.
pub open spec fn walk_inside(tree: Seq<NodeView>, p: int, j: int) -> Seq<int>
    decreases 2 * (tree.len() - j) + 1,
{
    if closed_at(tree, p, j) {
        Seq::empty()
    } else if child_at(tree, p, j) && tree[j].named {
        walk(tree, j) + walk_inside(tree, p, j + 1)
    } else {
        walk_inside(tree, p, j + 1)
    }
}

/// The text that node `i` covers.
pub open spec fn node_text(tree: Seq<NodeView>, source: Seq<char>, i: int) -> Option<Seq<char>> {
    text::byte_slice(source, tree[i].start as int, tree[i].end as int)
}

/// The block or program that encloses node `i`, or else its outermost ancestor.
pub open spec fn container(tree: Seq<NodeView>, i: int) -> int
    decreases i,
{
    match parent(tree, i) {
        None => i,
        Some(p) => {
            proof {
                lemma_parent_before(tree, i, i);
            }
            if tree[p].kind == "statement_block"@ || tree[p].kind == "program"@ || !(0 <= p < i) {
                p
            } else {
                container(tree, p)
            }
        },
    }
}

/// The offset after `at`.
pub open spec fn after(at: usize) -> usize {
    if at < usize::MAX {
        (at + 1) as usize
    } else {
        at
    }
}

/// The offset `width` before `at`, or the start of the text.
pub open spec fn before(at: usize, width: int) -> usize {
    if at <= width {
        0
    } else {
        (at - width) as usize
    }
}

/// The range of a string without its quotes.
pub open spec fn inner_range(node: NodeView) -> (usize, usize) {
    (after(node.start), before(node.end, 1))
}

/// What there is, as a list.
pub open spec fn listed<T>(found: Option<T>) -> Seq<T> {
    match found {
        Some(value) => seq![value],
        None => Seq::empty(),
    }
}

/// Node numbers as integers.
pub open spec fn indices(nodes: Seq<usize>) -> Seq<int> {
    nodes.map_values(|i: usize| i as int)
}

/// A node number, where there is one, as an integer.
pub open spec fn index(node: Option<usize>) -> Option<int> {
    match node {
        Some(i) => Some(i as int),
        None => None,
    }
}

/// The range of a string without its quotes.
pub fn inside(node: &SyntaxNode) -> (range: ByteRange)
    ensures
        range.deep_view() == inner_range(node.deep_view()),
{
    let start: usize = node.start;
    let end: usize = node.end;
    ByteRange::new(
        if start < usize::MAX {
            start + 1
        } else {
            start
        },
        if end <= 1 {
            0
        } else {
            end - 1
        },
    )
}

/// Whether a node is of the given kind.
pub fn is_kind(node: &SyntaxNode, kind: &str) -> (found: bool)
    ensures
        found == (node.deep_view().kind == kind@),
{
    text::same(node.kind.as_str(), kind)
}

/// The named children of `p`.
pub fn named_children_of(nodes: &[SyntaxNode], p: usize) -> (children: Vec<usize>)
    requires
        p < nodes@.len(),
    ensures
        indices(children@) == named_children(nodes.deep_view(), p as int),
        forall|k: int| 0 <= k < children@.len() ==> p < #[trigger] children@[k] < nodes@.len(),
{
    let ghost tree = nodes.deep_view();
    let mut children: Vec<usize> = Vec::new();
    let total: usize = nodes.len();
    let mut j: usize = p + 1;
    while j < total && nodes[j].depth > nodes[p].depth
        invariant
            p < j <= total,
            total == nodes@.len(),
            tree == nodes.deep_view(),
            named_children(tree, p as int) == indices(children@)
                + named_from(tree, p as int, j as int),
            forall|k: int| 0 <= k < children@.len() ==> p < #[trigger] children@[k] < nodes@.len(),
        decreases total - j,
    {
        assert(tree[j as int] == nodes@[j as int].deep_view());
        assert(tree[p as int] == nodes@[p as int].deep_view());
        let ghost before = children@;
        if nodes[j].depth - 1 == nodes[p].depth && nodes[j].named {
            children.push(j);
            assert(indices(children@) =~= indices(before).push(j as int));
            assert(named_from(tree, p as int, j as int) =~= seq![j as int] + named_from(
                tree,
                p as int,
                j + 1,
            ));
            assert(indices(before) + named_from(tree, p as int, j as int)
                =~= indices(children@) + named_from(
                tree,
                p as int,
                j + 1,
            ));
        }
        j += 1;
    }
    assert(closed_at(tree, p as int, j as int)) by {
        if j < nodes@.len() {
            assert(tree[j as int] == nodes@[j as int].deep_view());
            assert(tree[p as int] == nodes@[p as int].deep_view());
        }
    }
    assert(indices(children@) + Seq::<int>::empty()
        =~= indices(children@));
    children
}

/// The child of `p` that fills the field `name`.
pub fn child_by_field(nodes: &[SyntaxNode], p: usize, name: &str) -> (child: Option<usize>)
    requires
        p < nodes@.len(),
    ensures
        index(child) == field_child(nodes.deep_view(), p as int, name@),
        child matches Some(c) ==> p < c < nodes@.len(),
{
    let ghost tree = nodes.deep_view();
    let total: usize = nodes.len();
    let mut j: usize = p + 1;
    while j < total && nodes[j].depth > nodes[p].depth
        invariant
            p < j <= total,
            total == nodes@.len(),
            tree == nodes.deep_view(),
            field_child(tree, p as int, name@) == field_from(tree, p as int, name@, j as int),
        decreases total - j,
    {
        assert(tree[j as int] == nodes@[j as int].deep_view());
        assert(tree[p as int] == nodes@[p as int].deep_view());
        if nodes[j].depth - 1 == nodes[p].depth {
            if let Some(field) = &nodes[j].field {
                if text::same(field.as_str(), name) {
                    return Some(j);
                }
            }
        }
        j += 1;
    }
    assert(closed_at(tree, p as int, j as int)) by {
        if j < nodes@.len() {
            assert(tree[j as int] == nodes@[j as int].deep_view());
            assert(tree[p as int] == nodes@[p as int].deep_view());
        }
    }
    None
}

/// The parent of node `i`.
pub fn parent_of(nodes: &[SyntaxNode], i: usize) -> (found: Option<usize>)
    requires
        i < nodes@.len(),
    ensures
        index(found) == parent(nodes.deep_view(), i as int),
        found matches Some(p) ==> p < i,
{
    let ghost tree = nodes.deep_view();
    let mut j: usize = i;
    while j > 0
        invariant
            j <= i < nodes@.len(),
            tree == nodes.deep_view(),
            parent(tree, i as int) == parent_before(tree, i as int, j as int),
        decreases j,
    {
        assert(tree[j - 1] == nodes@[j - 1].deep_view());
        assert(tree[i as int] == nodes@[i as int].deep_view());
        if nodes[j - 1].depth < nodes[i].depth {
            return Some(j - 1);
        }
        j -= 1;
    }
    None
}

/// The block or program that encloses node `i`, or else its outermost ancestor.
pub fn lexical_container(nodes: &[SyntaxNode], i: usize) -> (outer: usize)
    requires
        i < nodes@.len(),
    ensures
        outer == container(nodes.deep_view(), i as int),
        outer < nodes@.len(),
{
    let ghost tree = nodes.deep_view();
    let mut at: usize = i;
    loop
        invariant
            at <= i < nodes@.len(),
            tree == nodes.deep_view(),
            container(tree, i as int) == container(tree, at as int),
        decreases at,
    {
        match parent_of(nodes, at) {
            None => {
                return at;
            },
            Some(p) => {
                assert(tree[p as int] == nodes@[p as int].deep_view());
                if is_kind(&nodes[p], "statement_block") || is_kind(&nodes[p], "program") {
                    return p;
                }
                at = p;
            },
        }
    }
}

/// Adds to `out` the nodes that a walk from `i` through named children comes to.
fn walk_into(nodes: &[SyntaxNode], i: usize, out: &mut Vec<usize>)
    requires
        i < nodes@.len(),
        forall|k: int| 0 <= k < old(out)@.len() ==> #[trigger] old(out)@[k] < nodes@.len(),
    ensures
        indices(final(out)@) == indices(old(out)@) + walk(nodes.deep_view(), i as int),
        forall|k: int| 0 <= k < final(out)@.len() ==> #[trigger] final(out)@[k] < nodes@.len(),
    decreases nodes@.len() - i,
{
    let ghost tree = nodes.deep_view();
    let ghost before = indices(out@);
    let total: usize = nodes.len();
    out.push(i);
    let mut j: usize = i + 1;
    assert(indices(out@) =~= before + seq![i as int]);
    while j < total && nodes[j].depth > nodes[i].depth
        invariant
            i < j <= total,
            total == nodes@.len(),
            tree == nodes.deep_view(),
            forall|k: int| 0 <= k < out@.len() ==> #[trigger] out@[k] < total,
            before + seq![i as int] + walk_inside(tree, i as int, i + 1) == indices(out@)
                + walk_inside(tree, i as int, j as int),
        decreases total - j,
    {
        assert(tree[j as int] == nodes@[j as int].deep_view());
        assert(tree[i as int] == nodes@[i as int].deep_view());
        let ghost so_far = indices(out@);
        let ghost rest = walk_inside(tree, i as int, j + 1);
        if nodes[j].depth - 1 == nodes[i].depth && nodes[j].named {
            walk_into(nodes, j, out);
            assert(so_far + (walk(tree, j as int) + rest) =~= indices(out@) + rest);
        }
        j += 1;
    }
    assert(closed_at(tree, i as int, j as int)) by {
        if j < nodes@.len() {
            assert(tree[j as int] == nodes@[j as int].deep_view());
            assert(tree[i as int] == nodes@[i as int].deep_view());
        }
    }
    assert(indices(out@) + Seq::<int>::empty() =~= indices(out@));
    assert(before + seq![i as int] + walk_inside(tree, i as int, i + 1) =~= before + walk(
        tree,
        i as int,
    ));
}

/// The nodes that a walk from `i` through named children comes to.
pub fn walk_from(nodes: &[SyntaxNode], i: usize) -> (order: Vec<usize>)
    requires
        i < nodes@.len(),
    ensures
        indices(order@) == walk(nodes.deep_view(), i as int),
        forall|k: int| 0 <= k < order@.len() ==> #[trigger] order@[k] < nodes@.len(),
{
    let mut order: Vec<usize> = Vec::new();
    walk_into(nodes, i, &mut order);
    assert(indices(order@) =~= walk(nodes.deep_view(), i as int));
    order
}

/// The nodes that a walk from the root through named children comes to.
pub fn walk_all(nodes: &[SyntaxNode]) -> (order: Vec<usize>)
    ensures
        indices(order@) == walk(nodes.deep_view(), 0),
        forall|k: int| 0 <= k < order@.len() ==> #[trigger] order@[k] < nodes@.len(),
{
    if nodes.len() > 0 {
        walk_from(nodes, 0)
    } else {
        let none: Vec<usize> = Vec::new();
        assert(indices(none@) =~= walk(nodes.deep_view(), 0));
        none
    }
}

/// The text that node `i` covers.
pub fn text_of<'a>(nodes: &[SyntaxNode], source: &'a str, i: usize) -> (part: Option<&'a str>)
    requires
        i < nodes@.len(),
    ensures
        part.deep_view() == node_text(nodes.deep_view(), source@, i as int),
{
    text::slice(source, nodes[i].start, nodes[i].end)
}

/// The strings that the nodes of a tree are, where they are strings.
pub open spec fn strings_of(tree: Seq<NodeView>, text: Seq<char>) -> Seq<
    Option<Seq<char>>,
> {
    Seq::new(
        tree.len(),
        |i: int|
            match node_text(tree, text, i) {
                Some(raw) => json::string_value(raw),
                None => None,
            },
    )
}

/// The strings that the nodes of a tree are, where they are strings.
pub fn read_strings(nodes: &[SyntaxNode], text: &str) -> (strings: Vec<Option<String>>)
    ensures
        strings.deep_view() == strings_of(nodes.deep_view(), text@),
{
    let ghost all = strings_of(nodes.deep_view(), text@);
    assert(nodes.deep_view().len() == nodes@.len());
    let mut strings: Vec<Option<String>> = Vec::new();
    assert(strings.deep_view() =~= all.take(0));
    let mut n: usize = 0;
    while n < nodes.len()
        invariant
            n <= nodes@.len(),
            all == strings_of(nodes.deep_view(), text@),
            all.len() == nodes@.len(),
            strings.deep_view() == all.take(n as int),
        decreases nodes@.len() - n,
    {
        let ghost before = strings.deep_view();
        let string = match text_of(nodes, text, n) {
            Some(raw) => json::decode_string(raw),
            None => None,
        };
        strings.push(string);
        assert(strings.deep_view() =~= before.push(all[n as int]));
        assert(all.take(n + 1) =~= before.push(all[n as int]));
        n += 1;
    }
    assert(all.take(n as int) =~= all);
    strings
}

} // verus!
