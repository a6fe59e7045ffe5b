//! That the walks through the store reach every node: document order and
//! flat form are walked to a depth of the number of nodes, and no tree
//! under a node without a parent is deeper than that.

use vstd::prelude::*;
use crate::html::dom::{
    child_ok, linked, node_ok, order, order_of_first, picked, selects, NodeView, SelectorView,
};
use crate::html::listing::{listing, listing_of_first};

verus! {

/// Whether `path` leads down from a node without a parent: each node
/// after the first has the one before it as its parent.
pub open spec fn chain(nodes: Seq<NodeView>, path: Seq<usize>) -> bool {
    &&& path.len() > 0
    &&& forall|i: int| 0 <= i < path.len() ==> #[trigger] path[i] < nodes.len()
    &&& nodes[path[0] as int].parent is None
    &&& forall|i: int|
        1 <= i < path.len() ==> (#[trigger] nodes[path[i] as int]).parent == Some(path[i - 1])
}

/// A path down from a node without a parent meets no node twice.
pub proof fn lemma_chain_simple(nodes: Seq<NodeView>, path: Seq<usize>, i: int, j: int)
    requires
        chain(nodes, path),
        0 <= i < j < path.len(),
    ensures
        path[i] != path[j],
    decreases i,
{
    if path[i] == path[j] {
        assert(nodes[path[j] as int].parent == Some(path[j - 1]));
        if i > 0 {
            assert(nodes[path[i] as int].parent == Some(path[i - 1]));
            lemma_chain_simple(nodes, path, i - 1, j - 1);
        }
    }
}

/// Distinct numbers below `n` are `n` at most.
pub proof fn lemma_bounded_distinct(s: Seq<usize>, n: nat)
    requires
        s.no_duplicates(),
        forall|i: int| 0 <= i < s.len() ==> #[trigger] s[i] < n,
    ensures
        s.len() <= n,
    decreases n,
{
    if n == 0 {
        if s.len() > 0 {
            assert(s[0] < n);
        }
    } else {
        let top = (n - 1) as usize;
        if exists|p: int| 0 <= p < s.len() && s[p] == top {
            let p = choose|p: int| 0 <= p < s.len() && s[p] == top;
            let rest = s.remove(p);
            assert forall|i: int| 0 <= i < rest.len() implies #[trigger] rest[i] < n - 1 by {
                if i < p {
                    assert(rest[i] == s[i]);
                } else {
                    assert(rest[i] == s[i + 1]);
                }
            }
            assert forall|i: int, j: int|
                0 <= i < rest.len() && 0 <= j < rest.len() && i != j implies rest[i]
                != rest[j] by {
                let a = if i < p {
                    i
                } else {
                    i + 1
                };
                let b = if j < p {
                    j
                } else {
                    j + 1
                };
                assert(rest[i] == s[a] && rest[j] == s[b]);
            }
            lemma_bounded_distinct(rest, (n - 1) as nat);
        } else {
            assert forall|i: int| 0 <= i < s.len() implies #[trigger] s[i] < n - 1 by {
                assert(s[i] < n);
            }
            lemma_bounded_distinct(s, (n - 1) as nat);
        }
    }
}

/// A path down from a node without a parent is no longer than the store
/// is large.
pub proof fn lemma_chain_short(nodes: Seq<NodeView>, path: Seq<usize>)
    requires
        chain(nodes, path),
    ensures
        path.len() <= nodes.len(),
{
    assert forall|i: int, j: int| 0 <= i < path.len() && 0 <= j < path.len() && i != j implies path[i]
        != path[j] by {
        if i < j {
            lemma_chain_simple(nodes, path, i, j);
        } else {
            lemma_chain_simple(nodes, path, j, i);
        }
    }
    lemma_bounded_distinct(path, nodes.len());
}

/// A path that goes on to a child of its last node is a path still.
pub proof fn lemma_chain_grows(nodes: Seq<NodeView>, path: Seq<usize>, i: int)
    requires
        linked(nodes),
        chain(nodes, path),
        0 <= i < nodes[path.last() as int].children.len(),
    ensures
        chain(nodes, path.push(nodes[path.last() as int].children[i])),
{
    let n = path.last();
    assert(n == path[path.len() - 1]);
    assert(node_ok(nodes, n as int));
    assert(child_ok(nodes, n as int, i));
    let next = path.push(nodes[n as int].children[i]);
    assert forall|k: int| 1 <= k < next.len() implies (#[trigger] nodes[next[k] as int]).parent
        == Some(next[k - 1]) by {
        if k < path.len() {
            assert(next[k] == path[k] && next[k - 1] == path[k - 1]);
        }
    }
    assert forall|k: int| 0 <= k < next.len() implies #[trigger] next[k] < nodes.len() by {
        if k < path.len() {
            assert(next[k] == path[k]);
        }
    }
}

/// At the end of a path, a walk that may go deeper than the store has
/// room for finds what a walk one level deeper finds.
pub proof fn lemma_order_stable(nodes: Seq<NodeView>, path: Seq<usize>, fuel: nat)
    requires
        linked(nodes),
        chain(nodes, path),
        fuel + path.len() > nodes.len(),
    ensures
        order(nodes, path.last(), fuel) == order(nodes, path.last(), fuel + 1),
    decreases nodes.len() - path.len(), 2int, 0int,
{
    lemma_chain_short(nodes, path);
    let n = path.last();
    assert(n == path[path.len() - 1]);
    let list = nodes[n as int].children;
    lemma_order_of_first_stable(nodes, path, list.len(), (fuel - 1) as nat);
}

/// Among the children of the node at the end of a path, such a walk finds
/// what a walk one level deeper finds.
pub proof fn lemma_order_of_first_stable(
    nodes: Seq<NodeView>,
    path: Seq<usize>,
    k: nat,
    fuel: nat,
)
    requires
        linked(nodes),
        chain(nodes, path),
        path.len() <= nodes.len(),
        fuel + 1 + path.len() > nodes.len(),
        k <= nodes[path.last() as int].children.len(),
    ensures
        order_of_first(nodes, nodes[path.last() as int].children, k, fuel) == order_of_first(
            nodes,
            nodes[path.last() as int].children,
            k,
            fuel + 1,
        ),
    decreases nodes.len() - path.len(), 1int, k,
{
    if k > 0 {
        let list = nodes[path.last() as int].children;
        lemma_order_of_first_stable(nodes, path, (k - 1) as nat, fuel);
        lemma_chain_grows(nodes, path, k - 1);
        let next = path.push(list[k - 1]);
        lemma_chain_short(nodes, next);
        assert(next.last() == list[k - 1]);
        lemma_order_stable(nodes, next, fuel);
    }
}

/// The walk through a tree is complete. Under a node without a parent,
/// in a store whose links agree, document order walked to the depth of
/// the number of nodes is document order walked to any greater depth: no
/// node of the tree lies deeper.
pub proof fn law_order_is_complete(nodes: Seq<NodeView>, root: usize, fuel: nat)
    requires
        linked(nodes),
        root < nodes.len(),
        nodes[root as int].parent is None,
        fuel >= nodes.len(),
    ensures
        order(nodes, root, fuel) == order(nodes, root, nodes.len()),
    decreases fuel,
{
    if fuel > nodes.len() {
        law_order_is_complete(nodes, root, (fuel - 1) as nat);
        let path = seq![root];
        assert(chain(nodes, path));
        assert(path.last() == root);
        lemma_order_stable(nodes, path, (fuel - 1) as nat);
    }
}

/// The walk below any node of a tree is complete: under a node that a
/// path reaches from a node without a parent, document order walked to
/// the depth of the number of nodes is document order walked to any
/// greater depth.
pub proof fn law_order_is_complete_below(nodes: Seq<NodeView>, path: Seq<usize>, fuel: nat)
    requires
        linked(nodes),
        chain(nodes, path),
        fuel >= nodes.len(),
    ensures
        order(nodes, path.last(), fuel) == order(nodes, path.last(), nodes.len()),
    decreases fuel,
{
    if fuel > nodes.len() {
        law_order_is_complete_below(nodes, path, (fuel - 1) as nat);
        lemma_order_stable(nodes, path, (fuel - 1) as nat);
    }
}

/// At the end of a path, the flat form read to a depth that the store
/// has no room for is the flat form read one level deeper.
pub proof fn lemma_listing_stable(nodes: Seq<NodeView>, path: Seq<usize>, fuel: nat)
    requires
        linked(nodes),
        chain(nodes, path),
        fuel + path.len() > nodes.len(),
    ensures
        listing(nodes, path.last(), fuel) == listing(nodes, path.last(), fuel + 1),
    decreases nodes.len() - path.len(), 2int, 0int,
{
    lemma_chain_short(nodes, path);
    let n = path.last();
    assert(n == path[path.len() - 1]);
    let list = nodes[n as int].children;
    lemma_listing_of_first_stable(nodes, path, list.len(), (fuel - 1) as nat);
}

/// Among the children of the node at the end of a path, the flat form is
/// the same one level deeper.
pub proof fn lemma_listing_of_first_stable(
    nodes: Seq<NodeView>,
    path: Seq<usize>,
    k: nat,
    fuel: nat,
)
    requires
        linked(nodes),
        chain(nodes, path),
        path.len() <= nodes.len(),
        fuel + 1 + path.len() > nodes.len(),
        k <= nodes[path.last() as int].children.len(),
    ensures
        listing_of_first(nodes, nodes[path.last() as int].children, k, fuel) == listing_of_first(
            nodes,
            nodes[path.last() as int].children,
            k,
            fuel + 1,
        ),
    decreases nodes.len() - path.len(), 1int, k,
{
    if k > 0 {
        let list = nodes[path.last() as int].children;
        lemma_listing_of_first_stable(nodes, path, (k - 1) as nat, fuel);
        lemma_chain_grows(nodes, path, k - 1);
        let next = path.push(list[k - 1]);
        lemma_chain_short(nodes, next);
        assert(next.last() == list[k - 1]);
        lemma_listing_stable(nodes, next, fuel);
    }
}

/// The flat form of a tree is complete. Under a node without a parent,
/// in a store whose links agree, the flat form read to the depth of the
/// number of nodes is the flat form read to any greater depth.
pub proof fn law_listing_is_complete(nodes: Seq<NodeView>, root: usize, fuel: nat)
    requires
        linked(nodes),
        root < nodes.len(),
        nodes[root as int].parent is None,
        fuel >= nodes.len(),
    ensures
        listing(nodes, root, fuel) == listing(nodes, root, nodes.len()),
    decreases fuel,
{
    if fuel > nodes.len() {
        law_listing_is_complete(nodes, root, (fuel - 1) as nat);
        let path = seq![root];
        assert(chain(nodes, path));
        assert(path.last() == root);
        lemma_listing_stable(nodes, path, (fuel - 1) as nat);
    }
}

/// Whether `path` leads down through the store: each node after the
/// first has the one before it as its parent.
pub open spec fn descends(nodes: Seq<NodeView>, path: Seq<usize>) -> bool {
    &&& path.len() > 0
    &&& forall|i: int| 0 <= i < path.len() ==> #[trigger] path[i] < nodes.len()
    &&& forall|i: int|
        1 <= i < path.len() ==> (#[trigger] nodes[path[i] as int]).parent == Some(path[i - 1])
}

/// What the first children give is part of what more children give.
pub proof fn lemma_order_of_first_grows(
    nodes: Seq<NodeView>,
    list: Seq<usize>,
    k: nat,
    more: nat,
    fuel: nat,
    n: usize,
)
    requires
        k <= more <= list.len(),
        order_of_first(nodes, list, k, fuel).contains(n),
    ensures
        order_of_first(nodes, list, more, fuel).contains(n),
    decreases more - k,
{
    if k < more {
        lemma_order_of_first_grows(nodes, list, k, (more - 1) as nat, fuel, n);
        let front = order_of_first(nodes, list, (more - 1) as nat, fuel);
        let all = order_of_first(nodes, list, more, fuel);
        let at = choose|i: int| 0 <= i < front.len() && front[i] == n;
        assert(all[at] == n);
    }
}

/// A node at the end of a path is in the document order under the node
/// at its start, as soon as the walk goes as deep as the path is long.
pub proof fn lemma_path_is_walked(nodes: Seq<NodeView>, path: Seq<usize>, fuel: nat)
    requires
        linked(nodes),
        descends(nodes, path),
        fuel >= path.len(),
    ensures
        order(nodes, path[0], fuel).contains(path.last()),
    decreases path.len(),
{
    let top = path[0];
    let all = order(nodes, top, fuel);
    assert(all[0] == top);
    if path.len() > 1 {
        let c = path[1];
        let rest = path.skip(1);
        assert(nodes[c as int].parent == Some(top));
        assert(node_ok(nodes, c as int));
        let list = nodes[top as int].children;
        let i = choose|i: int| 0 <= i < list.len() && list[i] == c;
        assert forall|k: int| 1 <= k < rest.len() implies (#[trigger] nodes[rest[k] as int]).parent
            == Some(rest[k - 1]) by {
            assert(rest[k] == path[k + 1] && rest[k - 1] == path[k]);
        }
        assert forall|k: int| 0 <= k < rest.len() implies #[trigger] rest[k] < nodes.len() by {
            assert(rest[k] == path[k + 1]);
        }
        lemma_path_is_walked(nodes, rest, (fuel - 1) as nat);
        assert(rest[0] == c && rest.last() == path.last());
        let sub = order(nodes, c, (fuel - 1) as nat);
        let at = choose|j: int| 0 <= j < sub.len() && sub[j] == path.last();
        let upto = order_of_first(nodes, list, (i + 1) as nat, (fuel - 1) as nat);
        let before = order_of_first(nodes, list, i as nat, (fuel - 1) as nat);
        assert(upto == before + sub);
        assert(upto[before.len() + at] == path.last());
        lemma_order_of_first_grows(
            nodes,
            list,
            (i + 1) as nat,
            list.len(),
            (fuel - 1) as nat,
            path.last(),
        );
        let tail = order_of_first(nodes, list, list.len(), (fuel - 1) as nat);
        let p = choose|j: int| 0 <= j < tail.len() && tail[j] == path.last();
        assert(all == seq![top] + tail);
        assert(all[p + 1] == path.last());
    }
}

/// Every node in the document order under the end of a path is at the
/// end of a longer path that begins as this one does.
pub proof fn lemma_walked_has_path(
    nodes: Seq<NodeView>,
    path: Seq<usize>,
    fuel: nat,
    n: usize,
) -> (out: Seq<usize>)
    requires
        linked(nodes),
        descends(nodes, path),
        order(nodes, path.last(), fuel).contains(n),
    ensures
        descends(nodes, out),
        out.len() >= path.len(),
        out.take(path.len() as int) == path,
        out.last() == n,
    decreases fuel, 0nat, 0nat,
{
    let top = path.last();
    assert(top == path[path.len() - 1]);
    if n == top {
        assert(path.take(path.len() as int) == path);
        path
    } else {
        let list = nodes[top as int].children;
        let tail = order_of_first(nodes, list, list.len(), (fuel - 1) as nat);
        let all = order(nodes, top, fuel);
        let at = choose|i: int| 0 <= i < all.len() && all[i] == n;
        assert(all == seq![top] + tail);
        assert(tail[at - 1] == n);
        lemma_walked_child_has_path(nodes, path, list.len(), (fuel - 1) as nat, n)
    }
}

/// Every node in the document order of the first `k` children of the
/// end of a path is at the end of a longer path.
pub proof fn lemma_walked_child_has_path(
    nodes: Seq<NodeView>,
    path: Seq<usize>,
    k: nat,
    fuel: nat,
    n: usize,
) -> (out: Seq<usize>)
    requires
        linked(nodes),
        descends(nodes, path),
        k <= nodes[path.last() as int].children.len(),
        order_of_first(nodes, nodes[path.last() as int].children, k, fuel).contains(n),
    ensures
        descends(nodes, out),
        out.len() >= path.len(),
        out.take(path.len() as int) == path,
        out.last() == n,
    decreases fuel, 1nat, k,
{
    let top = path.last();
    assert(top == path[path.len() - 1]);
    let list = nodes[top as int].children;
    let front = order_of_first(nodes, list, (k - 1) as nat, fuel);
    let sub = order(nodes, list[k - 1], fuel);
    let all = order_of_first(nodes, list, k, fuel);
    assert(k > 0);
    assert(all == front + sub);
    let at = choose|i: int| 0 <= i < all.len() && all[i] == n;
    if at < front.len() {
        assert(front[at] == n);
        lemma_walked_child_has_path(nodes, path, (k - 1) as nat, fuel, n)
    } else {
        assert(sub[at - front.len()] == n);
        assert(node_ok(nodes, top as int));
        assert(child_ok(nodes, top as int, k - 1));
        let next = path.push(list[k - 1]);
        assert forall|j: int| 1 <= j < next.len() implies (#[trigger] nodes[next[j] as int]).parent
            == Some(next[j - 1]) by {
            if j < path.len() {
                assert(next[j] == path[j] && next[j - 1] == path[j - 1]);
            }
        }
        assert forall|j: int| 0 <= j < next.len() implies #[trigger] next[j] < nodes.len() by {
            if j < path.len() {
                assert(next[j] == path[j]);
            }
        }
        assert(next.last() == list[k - 1]);
        let out = lemma_walked_has_path(nodes, next, fuel, n);
        assert(out.take(path.len() as int) =~= out.take(next.len() as int).take(path.len() as int));
        assert(next.take(path.len() as int) =~= path);
        out
    }
}

/// Where no node of a list passes a selector, none is picked.
pub proof fn lemma_none_picked(nodes: Seq<NodeView>, ids: Seq<usize>, sel: SelectorView)
    requires
        forall|i: int|
            0 <= i < ids.len() ==> !((#[trigger] ids[i]) < nodes.len() && selects(
                sel,
                nodes[ids[i] as int],
            )),
    ensures
        picked(nodes, ids, sel) == Seq::<usize>::empty(),
    decreases ids.len(),
{
    if ids.len() > 0 {
        assert(ids.last() == ids[ids.len() - 1]);
        assert forall|i: int| 0 <= i < ids.drop_last().len() implies !((
        #[trigger] ids.drop_last()[i]) < nodes.len() && selects(
            sel,
            nodes[ids.drop_last()[i] as int],
        )) by {
            assert(ids.drop_last()[i] == ids[i]);
        }
        lemma_none_picked(nodes, ids.drop_last(), sel);
    }
}

/// A node of a list that passes a selector is picked.
pub proof fn lemma_member_picked(nodes: Seq<NodeView>, ids: Seq<usize>, sel: SelectorView, at: int)
    requires
        0 <= at < ids.len(),
        ids[at] < nodes.len(),
        selects(sel, nodes[ids[at] as int]),
    ensures
        picked(nodes, ids, sel).contains(ids[at]),
    decreases ids.len(),
{
    let all = picked(nodes, ids, sel);
    if at == ids.len() - 1 {
        assert(all == picked(nodes, ids.drop_last(), sel).push(ids.last()));
        assert(all[all.len() - 1] == ids[at]);
    } else {
        assert(ids.drop_last()[at] == ids[at]);
        lemma_member_picked(nodes, ids.drop_last(), sel, at);
        let front = picked(nodes, ids.drop_last(), sel);
        let p = choose|p: int| 0 <= p < front.len() && front[p] == ids[at];
        assert(all[p] == ids[at]);
    }
}

/// Counted from their ends, two paths down from nodes without a parent
/// that end at the same node meet the same nodes.
pub proof fn lemma_chain_tails(nodes: Seq<NodeView>, one: Seq<usize>, two: Seq<usize>, k: int)
    requires
        chain(nodes, one),
        chain(nodes, two),
        one.last() == two.last(),
        0 <= k < one.len(),
        k < two.len(),
    ensures
        one[one.len() - 1 - k] == two[two.len() - 1 - k],
    decreases k,
{
    if k > 0 {
        lemma_chain_tails(nodes, one, two, k - 1);
        let a = one.len() - k;
        let b = two.len() - k;
        assert(nodes[one[a] as int].parent == Some(one[a - 1]));
        assert(nodes[two[b] as int].parent == Some(two[b - 1]));
    }
}

/// A node is reached in one way: two paths down from nodes without a
/// parent that end at the same node are the same path.
pub proof fn lemma_chain_unique(nodes: Seq<NodeView>, one: Seq<usize>, two: Seq<usize>)
    requires
        chain(nodes, one),
        chain(nodes, two),
        one.last() == two.last(),
    ensures
        one == two,
{
    if one.len() < two.len() {
        lemma_chain_tails(nodes, one, two, one.len() - 1);
        let at = two.len() - one.len();
        assert(nodes[two[at] as int].parent == Some(two[at - 1]));
    } else if two.len() < one.len() {
        lemma_chain_tails(nodes, one, two, two.len() - 1);
        let at = one.len() - two.len();
        assert(nodes[one[at] as int].parent == Some(one[at - 1]));
    } else {
        assert forall|i: int| 0 <= i < one.len() implies one[i] == two[i] by {
            lemma_chain_tails(nodes, one, two, one.len() - 1 - i);
        }
        assert(one =~= two);
    }
}

/// A node in the document order of the first `k` children of the end of
/// a path is in the document order under one of them.
pub proof fn lemma_member_child(
    nodes: Seq<NodeView>,
    list: Seq<usize>,
    k: nat,
    fuel: nat,
    n: usize,
) -> (j: int)
    requires
        k <= list.len(),
        order_of_first(nodes, list, k, fuel).contains(n),
    ensures
        0 <= j < k,
        order(nodes, list[j], fuel).contains(n),
    decreases k,
{
    let front = order_of_first(nodes, list, (k - 1) as nat, fuel);
    let sub = order(nodes, list[k - 1], fuel);
    let all = order_of_first(nodes, list, k, fuel);
    assert(k > 0);
    assert(all == front + sub);
    let at = choose|i: int| 0 <= i < all.len() && all[i] == n;
    if at < front.len() {
        assert(front[at] == n);
        lemma_member_child(nodes, list, (k - 1) as nat, fuel, n)
    } else {
        assert(sub[at - front.len()] == n);
        k - 1
    }
}

/// The path to a node in the document order under a child of the end of
/// a path: it goes on from the path through that child.
pub proof fn lemma_path_through_child(
    nodes: Seq<NodeView>,
    path: Seq<usize>,
    j: int,
    fuel: nat,
    n: usize,
) -> (out: Seq<usize>)
    requires
        linked(nodes),
        chain(nodes, path),
        0 <= j < nodes[path.last() as int].children.len(),
        order(nodes, nodes[path.last() as int].children[j], fuel).contains(n),
    ensures
        chain(nodes, out),
        out.len() > path.len(),
        out[path.len() as int] == nodes[path.last() as int].children[j],
        out[path.len() - 1] == path.last(),
        out.last() == n,
{
    let c = nodes[path.last() as int].children[j];
    lemma_chain_grows(nodes, path, j);
    let next = path.push(c);
    assert(next.last() == c);
    let out = lemma_walked_has_path(nodes, next, fuel, n);
    assert(out[path.len() as int] == out.take(next.len() as int)[path.len() as int]);
    assert(out[path.len() - 1] == out.take(next.len() as int)[path.len() - 1]);
    assert(out[0] == out.take(next.len() as int)[0]);
    assert(next[path.len() - 1] == path[path.len() - 1]);
    assert(next[0] == path[0]);
    out
}

/// No node is walked twice: under the end of a path down from a node
/// without a parent, document order lists no node twice.
pub proof fn lemma_order_distinct(nodes: Seq<NodeView>, path: Seq<usize>, fuel: nat)
    requires
        linked(nodes),
        chain(nodes, path),
    ensures
        order(nodes, path.last(), fuel).no_duplicates(),
    decreases fuel, 0nat, 0nat,
{
    let n = path.last();
    assert(n == path[path.len() - 1]);
    if fuel > 0 {
        let list = nodes[n as int].children;
        let tail = order_of_first(nodes, list, list.len(), (fuel - 1) as nat);
        lemma_order_of_first_distinct(nodes, path, list.len(), (fuel - 1) as nat);
        let head = seq![n];
        assert forall|i: int, j: int| 0 <= i < head.len() && 0 <= j < tail.len() implies head[i]
            != tail[j] by {
            if tail[j] == n {
                let c = lemma_member_child(nodes, list, list.len(), (fuel - 1) as nat, n);
                let out = lemma_path_through_child(nodes, path, c, (fuel - 1) as nat, n);
                lemma_chain_simple(nodes, out, path.len() - 1, out.len() - 1);
            }
        }
        vstd::seq_lib::lemma_no_dup_in_concat(head, tail);
    }
}

/// Under the first `k` children of the end of a path, document order
/// lists no node twice.
pub proof fn lemma_order_of_first_distinct(
    nodes: Seq<NodeView>,
    path: Seq<usize>,
    k: nat,
    fuel: nat,
)
    requires
        linked(nodes),
        chain(nodes, path),
        k <= nodes[path.last() as int].children.len(),
    ensures
        order_of_first(nodes, nodes[path.last() as int].children, k, fuel).no_duplicates(),
    decreases fuel, 1nat, k,
{
    if k > 0 {
        let n = path.last();
        assert(n == path[path.len() - 1]);
        assert(node_ok(nodes, n as int));
        let list = nodes[n as int].children;
        let front = order_of_first(nodes, list, (k - 1) as nat, fuel);
        let sub = order(nodes, list[k - 1], fuel);
        lemma_order_of_first_distinct(nodes, path, (k - 1) as nat, fuel);
        lemma_chain_grows(nodes, path, k - 1);
        let next = path.push(list[k - 1]);
        assert(next.last() == list[k - 1]);
        lemma_order_distinct(nodes, next, fuel);
        assert forall|i: int, j: int| 0 <= i < front.len() && 0 <= j < sub.len() implies front[i]
            != sub[j] by {
            if front[i] == sub[j] {
                let x = sub[j];
                let c = lemma_member_child(nodes, list, (k - 1) as nat, fuel, x);
                let one = lemma_path_through_child(nodes, path, c, fuel, x);
                let two = lemma_path_through_child(nodes, path, k - 1, fuel, x);
                lemma_chain_unique(nodes, one, two);
                assert(list[c] == list[k - 1]);
            }
        }
        vstd::seq_lib::lemma_no_dup_in_concat(front, sub);
    }
}

/// What a selector picks from a list without repetitions has none.
pub proof fn lemma_picked_distinct(nodes: Seq<NodeView>, ids: Seq<usize>, sel: SelectorView)
    requires
        ids.no_duplicates(),
    ensures
        picked(nodes, ids, sel).no_duplicates(),
        forall|i: int|
            0 <= i < picked(nodes, ids, sel).len() ==> ids.contains(
                #[trigger] picked(nodes, ids, sel)[i],
            ),
    decreases ids.len(),
{
    if ids.len() > 0 {
        let front = ids.drop_last();
        assert forall|i: int, j: int| 0 <= i < front.len() && 0 <= j < front.len() && i
            != j implies front[i] != front[j] by {
            assert(front[i] == ids[i] && front[j] == ids[j]);
        }
        lemma_picked_distinct(nodes, front, sel);
        let before = picked(nodes, front, sel);
        let all = picked(nodes, ids, sel);
        assert forall|i: int| 0 <= i < all.len() implies ids.contains(#[trigger] all[i]) by {
            if i < before.len() {
                assert(all[i] == before[i]);
                let k = choose|k: int| 0 <= k < front.len() && front[k] == before[i];
                assert(ids[k] == all[i]);
            } else {
                assert(all[i] == ids[ids.len() - 1]);
            }
        }
        assert forall|i: int, j: int| 0 <= i < all.len() && 0 <= j < all.len() && i
            != j implies all[i] != all[j] by {
            if i < before.len() && j < before.len() {
                assert(all[i] == before[i] && all[j] == before[j]);
            } else if i < before.len() {
                assert(all[i] == before[i]);
                let k = choose|k: int| 0 <= k < front.len() && front[k] == before[i];
                assert(ids[k] == before[i]);
            } else if j < before.len() {
                assert(all[j] == before[j]);
                let k = choose|k: int| 0 <= k < front.len() && front[k] == before[j];
                assert(ids[k] == before[j]);
            }
        }
    }
}

} // verus!
