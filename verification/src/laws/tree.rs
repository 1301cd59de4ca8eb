//! How a list of nodes with their depths is read as a tree.
use crate::syntax;
use vstd::prelude::*;

verus! {

/// Whether node `j` is a child of node `p`: it is one deeper, and all between the two are deeper
/// than `p`.
pub open spec fn is_child(tree: Seq<syntax::NodeView>, p: int, j: int) -> bool {
    &&& p < j < tree.len()
    &&& tree[j].depth == tree[p].depth + 1
    &&& forall|k: int| p < k <= j ==> (#[trigger] tree[k]).depth > tree[p].depth
}

/// Whether node `j` is a child of node `p` by which a walk goes on.
pub open spec fn is_named_child(tree: Seq<syntax::NodeView>, p: int, j: int) -> bool {
    is_child(tree, p, j) && tree[j].named
}

proof fn lemma_named(tree: Seq<syntax::NodeView>, p: int, j: int, c: int)
    requires
        0 <= p < j,
        forall|k: int| p < k < j && k < tree.len() ==> (#[trigger] tree[k]).depth > tree[p].depth,
    ensures
        syntax::named_from(tree, p, j).contains(c) <==> j <= c && is_named_child(tree, p, c),
    decreases tree.len() - j,
{
    let all = syntax::named_from(tree, p, j);
    if !syntax::closed_at(tree, p, j) {
        lemma_named(tree, p, j + 1, c);
        let rest = syntax::named_from(tree, p, j + 1);
        if syntax::child_at(tree, p, j) && tree[j].named {
            assert(all == seq![j] + rest);
            if all.contains(c) {
                let k = all.index_of(c);
                if k > 0 {
                    assert(rest[k - 1] == c);
                }
            }
            if rest.contains(c) {
                assert(all[rest.index_of(c) + 1] == c);
            }
            assert(all[0] == j);
        }
    } else if j <= c && is_named_child(tree, p, c) {
        assert(tree[j].depth > tree[p].depth);
    }
}

/// The named children of a node are those of its children that are named, in their order.
pub proof fn named_children_are_children(tree: Seq<syntax::NodeView>, p: int, c: int)
    requires
        0 <= p < tree.len(),
    ensures
        syntax::named_children(tree, p).contains(c) <==> is_named_child(tree, p, c),
        forall|i: int, j: int|
            0 <= i < j < syntax::named_children(tree, p).len() ==> syntax::named_children(tree, p)[i]
                < syntax::named_children(tree, p)[j],
{
    lemma_named(tree, p, p + 1, c);
    lemma_named_order(tree, p, p + 1);
}

proof fn lemma_named_order(tree: Seq<syntax::NodeView>, p: int, j: int)
    ensures
        forall|i: int, k: int|
            0 <= i < k < syntax::named_from(tree, p, j).len() ==> syntax::named_from(tree, p, j)[i]
                < syntax::named_from(tree, p, j)[k],
    decreases tree.len() - j,
{
    if !syntax::closed_at(tree, p, j) {
        lemma_named_order(tree, p, j + 1);
        syntax::lemma_named_from(tree, p, j + 1);
        let all = syntax::named_from(tree, p, j);
        let rest = syntax::named_from(tree, p, j + 1);
        if syntax::child_at(tree, p, j) && tree[j].named {
            assert forall|i: int, k: int| 0 <= i < k < all.len() implies all[i] < all[k] by {
                assert(all[k] == rest[k - 1]);
                if i > 0 {
                    assert(all[i] == rest[i - 1]);
                }
            }
        }
    }
}

proof fn lemma_field(tree: Seq<syntax::NodeView>, p: int, name: Seq<char>, j: int)
    requires
        0 <= p < j,
        forall|k: int| p < k < j && k < tree.len() ==> (#[trigger] tree[k]).depth > tree[p].depth,
    ensures
        match syntax::field_from(tree, p, name, j) {
            Some(c) => j <= c && is_child(tree, p, c) && tree[c].field == Some(name) && forall|
                d: int,
            |
                j <= d < c && is_child(tree, p, d) ==> (#[trigger] tree[d]).field != Some(name),
            None => forall|d: int|
                j <= d && is_child(tree, p, d) ==> (#[trigger] tree[d]).field != Some(name),
        },
    decreases tree.len() - j,
{
    if !syntax::closed_at(tree, p, j) {
        lemma_field(tree, p, name, j + 1);
        assert forall|d: int| j < d && is_child(tree, p, d) implies j + 1 <= d by {}
    } else {
        assert forall|d: int| j <= d && is_child(tree, p, d) implies (
        #[trigger] tree[d]).field != Some(name) by {
            assert(tree[j].depth > tree[p].depth);
        }
    }
}

/// The child for a field is the first child that fills it.
pub proof fn fields_are_children(tree: Seq<syntax::NodeView>, p: int, name: Seq<char>)
    requires
        0 <= p < tree.len(),
    ensures
        match syntax::field_child(tree, p, name) {
            Some(c) => is_child(tree, p, c) && tree[c].field == Some(name) && forall|d: int|
                d < c && is_child(tree, p, d) ==> (#[trigger] tree[d]).field != Some(name),
            None => forall|d: int|
                is_child(tree, p, d) ==> (#[trigger] tree[d]).field != Some(name),
        },
{
    lemma_field(tree, p, name, p + 1);
}

proof fn lemma_walk_inside(tree: Seq<syntax::NodeView>, p: int, j: int, c: int)
    requires
        0 <= p < j,
        forall|k: int| p < k < j && k < tree.len() ==> (#[trigger] tree[k]).depth > tree[p].depth,
        j <= c,
        is_named_child(tree, p, c),
    ensures
        forall|x: int| #[trigger]
            syntax::walk(tree, c).contains(x) ==> syntax::walk_inside(tree, p, j).contains(x),
    decreases tree.len() - j,
{
    assert(tree[j].depth > tree[p].depth);
    let all = syntax::walk_inside(tree, p, j);
    let rest = syntax::walk_inside(tree, p, j + 1);
    if syntax::child_at(tree, p, j) && tree[j].named {
        let own = syntax::walk(tree, j);
        assert(all == own + rest);
        assert forall|x: int| #[trigger] syntax::walk(tree, c).contains(x) implies all.contains(
            x,
        ) by {
            if j == c {
                assert(all[own.index_of(x)] == x);
            } else {
                lemma_walk_inside(tree, p, j + 1, c);
                assert(rest.contains(x));
                assert(all[own.len() + rest.index_of(x)] == x);
            }
        }
    } else {
        lemma_walk_inside(tree, p, j + 1, c);
    }
}

/// Whether node `c` is reached from node `i` by going from named child to named child.
pub open spec fn is_reached(tree: Seq<syntax::NodeView>, i: int, c: int) -> bool
    decreases c - i,
{
    if c <= i {
        c == i && 0 <= i < tree.len()
    } else {
        exists|p: int| i <= p < c && #[trigger] is_named_child(tree, p, c) && is_reached(tree, i, p)
    }
}

proof fn lemma_walk_child(tree: Seq<syntax::NodeView>, i: int, p: int, c: int)
    requires
        0 <= i < tree.len(),
        syntax::walk(tree, i).contains(p),
        is_named_child(tree, p, c),
    ensures
        syntax::walk(tree, i).contains(c),
    decreases 2 * (tree.len() - i),
{
    let all = syntax::walk(tree, i);
    let inner = syntax::walk_inside(tree, i, i + 1);
    assert(all == seq![i] + inner);
    if p == i {
        lemma_walk_inside(tree, i, i + 1, c);
        let own = syntax::walk(tree, c);
        assert(own[0] == c);
        assert(syntax::walk(tree, c).contains(c));
        assert(inner.contains(c));
    } else {
        let k = all.index_of(p);
        assert(inner[k - 1] == p);
        lemma_walk_child_inside(tree, i, i + 1, p, c);
    }
    assert(all[inner.index_of(c) + 1] == c);
}

proof fn lemma_walk_child_inside(tree: Seq<syntax::NodeView>, i: int, j: int, p: int, c: int)
    requires
        0 <= i < j,
        syntax::walk_inside(tree, i, j).contains(p),
        is_named_child(tree, p, c),
    ensures
        syntax::walk_inside(tree, i, j).contains(c),
    decreases 2 * (tree.len() - j) + 1,
{
    let all = syntax::walk_inside(tree, i, j);
    let rest = syntax::walk_inside(tree, i, j + 1);
    if syntax::child_at(tree, i, j) && tree[j].named {
        let own = syntax::walk(tree, j);
        assert(all == own + rest);
        let k = all.index_of(p);
        if k < own.len() {
            assert(own[k] == p);
            lemma_walk_child(tree, j, p, c);
            assert(all[own.index_of(c)] == c);
        } else {
            assert(rest[k - own.len()] == p);
            lemma_walk_child_inside(tree, i, j + 1, p, c);
            assert(all[own.len() + rest.index_of(c)] == c);
        }
    } else {
        lemma_walk_child_inside(tree, i, j + 1, p, c);
    }
}

/// A walk comes to every node that is reached by going from named child to named child.
pub proof fn walks_come_everywhere(tree: Seq<syntax::NodeView>, i: int, c: int)
    requires
        is_reached(tree, i, c),
    ensures
        syntax::walk(tree, i).contains(c),
    decreases c - i,
{
    if c <= i {
        assert(syntax::walk(tree, i)[0] == c);
    } else {
        let p = choose|p: int|
            i <= p < c && #[trigger] is_named_child(tree, p, c) && is_reached(tree, i, p);
        walks_come_everywhere(tree, i, p);
        lemma_reached(tree, i, p);
        lemma_walk_child(tree, i, p, c);
    }
}

proof fn lemma_reached(tree: Seq<syntax::NodeView>, i: int, c: int)
    requires
        is_reached(tree, i, c),
    ensures
        0 <= i <= c < tree.len(),
    decreases c - i,
{
    if c > i {
        let p = choose|p: int|
            i <= p < c && #[trigger] is_named_child(tree, p, c) && is_reached(tree, i, p);
        lemma_reached(tree, i, p);
    }
}

} // verus!
