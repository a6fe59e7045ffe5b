//! What a grafted tree looks like in the store, and that reading it back
//! gives the flat tree that was grafted.

use vstd::prelude::*;
use crate::html::dom::{
    appended, detached, lemma_appended, lemma_pushed_linked, linked, lone, NodeView,
};
use crate::html::listing::{
    deeper, grafted, latest, listing, listing_of_first, parent_index, well_nested, RecordView,
};

verus! {

/// What `latest` finds has the depth asked for, and no later record
/// among the first `k` has it.
pub proof fn lemma_latest(r: Seq<RecordView>, k: int, d: int)
    requires
        0 <= k <= r.len(),
    ensures
        -1 <= latest(r, k, d) < k,
        latest(r, k, d) >= 0 ==> r[latest(r, k, d)].depth == d,
        forall|j: int| latest(r, k, d) < j < k ==> (#[trigger] r[j]).depth != d,
    decreases k,
{
    if k > 0 && r[k - 1].depth != d {
        lemma_latest(r, k - 1, d);
    }
}

/// Depths rise by one step at most: between a record of depth at most
/// `d` and a later one of depth at least `d`, some record has depth `d`.
pub proof fn lemma_passes(r: Seq<RecordView>, a: int, b: int, d: int)
    requires
        well_nested(r),
        0 <= a <= b < r.len(),
        r[a].depth <= d <= r[b].depth,
    ensures
        latest(r, b + 1, d) >= a,
    decreases b - a,
{
    if r[b].depth != d {
        assert(b > a);
        assert(1 <= r[b].depth <= r[b - 1].depth + 1);
        lemma_passes(r, a, b - 1, d);
    }
}

/// Every record but the first has a parent before it, one level up, and
/// nothing between the two lies higher than the record.
pub proof fn lemma_parent(r: Seq<RecordView>, i: int)
    requires
        well_nested(r),
        1 <= i < r.len(),
    ensures
        0 <= parent_index(r, i) < i,
        r[parent_index(r, i)].depth == r[i].depth - 1,
        forall|j: int| parent_index(r, i) < j < i ==> (#[trigger] r[j]).depth >= r[i].depth,
{
    let d = r[i].depth - 1;
    assert(1 <= r[i].depth <= r[i - 1].depth + 1);
    lemma_passes(r, 0, i - 1, d);
    lemma_latest(r, i, d);
    let p = parent_index(r, i);
    assert forall|j: int| p < j < i implies (#[trigger] r[j]).depth >= r[i].depth by {
        if r[j].depth < r[i].depth {
            lemma_passes(r, j, i - 1, d);
        }
    }
}

/// The first position from `j` on, among the first `k`, whose record does
/// not lie below record `i`; `k` where there is none.
pub open spec fn span(r: Seq<RecordView>, i: int, j: int, k: int) -> int
    decreases k - j,
{
    if j >= k {
        k
    } else if r[j].depth <= r[i].depth {
        j
    } else {
        span(r, i, j + 1, k)
    }
}

/// The end of the tree under record `i` among the first `k` records.
pub open spec fn end(r: Seq<RecordView>, i: int, k: int) -> int {
    span(r, i, i + 1, k)
}

/// What `span` finds: everything before it lies below record `i`, and
/// the record there, if there is one, does not.
pub proof fn lemma_span(r: Seq<RecordView>, i: int, j: int, k: int)
    requires
        0 <= j <= k <= r.len(),
    ensures
        j <= span(r, i, j, k) <= k,
        forall|m: int| j <= m < span(r, i, j, k) ==> (#[trigger] r[m]).depth > r[i].depth,
        span(r, i, j, k) < k ==> r[span(r, i, j, k)].depth <= r[i].depth,
    decreases k - j,
{
    if j < k && r[j].depth > r[i].depth {
        lemma_span(r, i, j + 1, k);
    }
}

/// The nodes made from those records of positions `lo` up to `hi` whose
/// parent is record `i`, in order.
pub open spec fn kids(r: Seq<RecordView>, i: int, lo: int, hi: int, base: int) -> Seq<usize>
    decreases hi - lo,
{
    if hi <= lo {
        Seq::empty()
    } else {
        let before = kids(r, i, lo, hi - 1, base);
        if parent_index(r, hi - 1) == i {
            before.push((base + hi - 1) as usize)
        } else {
            before
        }
    }
}

/// The children of a record can be listed in two parts.
pub proof fn lemma_kids_split(r: Seq<RecordView>, i: int, lo: int, mid: int, hi: int, base: int)
    requires
        lo <= mid <= hi,
    ensures
        kids(r, i, lo, hi, base) == kids(r, i, lo, mid, base) + kids(r, i, mid, hi, base),
    decreases hi - mid,
{
    if hi == mid {
        assert(kids(r, i, lo, mid, base) + Seq::<usize>::empty() =~= kids(r, i, lo, mid, base));
    } else {
        lemma_kids_split(r, i, lo, mid, hi - 1, base);
        let left = kids(r, i, lo, mid, base);
        let right = kids(r, i, mid, hi - 1, base);
        if parent_index(r, hi - 1) == i {
            assert((left + right).push((base + hi - 1) as usize) =~= left + right.push(
                (base + hi - 1) as usize,
            ));
        }
    }
}

/// Where no record of a range has record `i` as its parent, the range
/// holds no child of it.
pub proof fn lemma_kids_none(r: Seq<RecordView>, i: int, lo: int, hi: int, base: int)
    requires
        forall|j: int| lo <= j < hi ==> parent_index(r, j) != i,
    ensures
        kids(r, i, lo, hi, base) == Seq::<usize>::empty(),
    decreases hi - lo,
{
    if hi > lo {
        lemma_kids_none(r, i, lo, hi - 1, base);
    }
}

/// The node that record `i` becomes when the first `k` records are
/// grafted onto a store of `base` nodes.
pub open spec fn grown(r: Seq<RecordView>, i: int, k: int, base: int) -> NodeView {
    NodeView {
        kind: r[i].kind,
        attrs: r[i].attrs,
        parent: if i == 0 {
            None
        } else {
            Some((base + parent_index(r, i)) as usize)
        },
        children: kids(r, i, i + 1, k, base),
    }
}

/// Whether a store is the given one with the first `k` records grafted
/// onto it: the old nodes are as they were, and each record has become
/// the node that `grown` describes.
#[verifier::opaque]
pub open spec fn shaped(
    old: Seq<NodeView>,
    new: Seq<NodeView>,
    r: Seq<RecordView>,
    k: int,
) -> bool {
    &&& new.len() == old.len() + k
    &&& forall|m: int| 0 <= m < old.len() ==> #[trigger] new[m] == old[m]
    &&& forall|i: int| 0 <= i < k ==> #[trigger] new[old.len() + i] == grown(r, i, k, old.len() as int)
}

/// A grafted store has the shape that `shaped` describes.
pub proof fn lemma_grafted_shape(nodes: Seq<NodeView>, r: Seq<RecordView>, k: nat)
    requires
        well_nested(r),
        k <= r.len(),
        nodes.len() + r.len() <= usize::MAX,
    ensures
        shaped(nodes, grafted(nodes, r, k), r, k as int),
    decreases k,
{
    let base = nodes.len() as int;
    reveal(shaped);
    if k > 0 {
        lemma_grafted_shape(nodes, r, (k - 1) as nat);
        let before = grafted(nodes, r, (k - 1) as nat);
        let made = before.push(lone(r[k - 1].kind, r[k - 1].attrs));
        let now = grafted(nodes, r, k);
        let x = (base + k - 1) as usize;
        if k == 1 {
            assert(now == made);
            assert forall|i: int| 0 <= i < k implies #[trigger] now[base + i] == grown(
                r,
                i,
                k as int,
                base,
            ) by {
                assert(kids(r, 0, 1, 1, base) =~= Seq::<usize>::empty());
            }
        } else {
            lemma_parent(r, k - 1);
            let pi = parent_index(r, k - 1);
            let p = (base + pi) as usize;
            assert(now == appended(made, p, x));
            assert(made[x as int].parent is None);
            assert(detached(made, x) == made);
            assert(made[p as int] == grown(r, pi, k - 1, base));
            assert forall|i: int| 0 <= i < k implies #[trigger] now[base + i] == grown(
                r,
                i,
                k as int,
                base,
            ) by {
                if i == k - 1 {
                    assert(kids(r, i, i + 1, k as int, base) =~= Seq::<usize>::empty());
                } else {
                    assert(made[base + i] == grown(r, i, k - 1, base));
                    assert(kids(r, i, i + 1, k as int, base) == (if pi == i {
                        kids(r, i, i + 1, k - 1, base).push(x)
                    } else {
                        kids(r, i, i + 1, k - 1, base)
                    }));
                }
            }
        }
    }
}

/// Grafting keeps the links in agreement, and the root of what was
/// grafted has no parent.
pub proof fn lemma_grafted_linked(nodes: Seq<NodeView>, r: Seq<RecordView>, k: nat)
    requires
        linked(nodes),
        well_nested(r),
        k <= r.len(),
        nodes.len() + r.len() <= usize::MAX,
    ensures
        linked(grafted(nodes, r, k)),
        grafted(nodes, r, k).len() == nodes.len() + k,
        k > 0 ==> grafted(nodes, r, k)[nodes.len() as int].parent is None,
    decreases k,
{
    lemma_grafted_shape(nodes, r, k);
    reveal(shaped);
    if k > 0 {
        lemma_grafted_linked(nodes, r, (k - 1) as nat);
        let before = grafted(nodes, r, (k - 1) as nat);
        let made = before.push(lone(r[k - 1].kind, r[k - 1].attrs));
        lemma_pushed_linked(before, lone(r[k - 1].kind, r[k - 1].attrs));
        if k > 1 {
            lemma_parent(r, k - 1);
            lemma_appended(
                made,
                (nodes.len() + parent_index(r, k - 1)) as usize,
                (nodes.len() + k - 1) as usize,
            );
        }
        assert(grafted(nodes, r, k)[nodes.len() as int + 0] == grown(
            r,
            0,
            k as int,
            nodes.len() as int,
        ));
    }
}

/// `latest` finds a record of the depth asked for behind which no other
/// has that depth.
pub proof fn lemma_latest_is(r: Seq<RecordView>, k: int, d: int, i: int)
    requires
        0 <= i < k <= r.len(),
        r[i].depth == d,
        forall|j: int| i < j < k ==> (#[trigger] r[j]).depth != d,
    ensures
        latest(r, k, d) == i,
    decreases k - i,
{
    if k - 1 > i {
        lemma_latest_is(r, k - 1, d, i);
    }
}

/// A child lies one level below its parent and inside the parent's
/// tree, and so does all of its own tree.
pub proof fn lemma_child_inside(r: Seq<RecordView>, i: int, c: int, k: int)
    requires
        well_nested(r),
        1 <= c < k <= r.len(),
        parent_index(r, c) == i,
    ensures
        0 <= i < c,
        r[c].depth == r[i].depth + 1,
        c < end(r, i, k),
        end(r, c, k) <= end(r, i, k),
{
    lemma_parent(r, c);
    lemma_span(r, i, i + 1, k);
    lemma_span(r, c, c + 1, k);
    let e = end(r, i, k);
    if e <= c {
        if e < c {
            assert(r[e].depth >= r[c].depth);
        }
    }
    if e < end(r, c, k) {
        assert(r[e].depth > r[c].depth);
    }
}

/// Behind the end of a record's tree no record is its child.
pub proof fn lemma_no_child_behind(r: Seq<RecordView>, i: int, j: int, k: int)
    requires
        well_nested(r),
        0 <= i < k <= r.len(),
        end(r, i, k) <= j < k,
    ensures
        parent_index(r, j) != i,
{
    lemma_span(r, i, i + 1, k);
    if parent_index(r, j) == i {
        lemma_child_inside(r, i, j, k);
    }
}

/// Inside the tree of a child no record is a child of the parent.
pub proof fn lemma_no_child_inside(r: Seq<RecordView>, i: int, c: int, j: int, k: int)
    requires
        well_nested(r),
        1 <= c < k <= r.len(),
        parent_index(r, c) == i,
        c < j < end(r, c, k),
    ensures
        parent_index(r, j) != i,
{
    lemma_child_inside(r, i, c, k);
    lemma_span(r, c, c + 1, k);
    assert(r[j].depth > r[c].depth);
    if parent_index(r, j) == i {
        lemma_parent(r, j);
    }
}

/// Where the tree of a child ends inside the tree of its parent, the
/// next child begins.
pub proof fn lemma_next_child(r: Seq<RecordView>, i: int, c: int, k: int)
    requires
        well_nested(r),
        1 <= c < k <= r.len(),
        parent_index(r, c) == i,
        end(r, c, k) < end(r, i, k),
    ensures
        parent_index(r, end(r, c, k)) == i,
{
    lemma_child_inside(r, i, c, k);
    lemma_span(r, c, c + 1, k);
    lemma_span(r, i, i + 1, k);
    let e = end(r, c, k);
    assert(r[e].depth > r[i].depth);
    assert(r[e].depth <= r[c].depth);
    assert forall|j: int| i < j < e implies (#[trigger] r[j]).depth != r[i].depth by {
        assert(r[j].depth > r[i].depth);
    }
    lemma_latest_is(r, e, r[i].depth, i);
}

/// Where a record's tree holds more than the record, the next record is
/// its first child.
pub proof fn lemma_first_child(r: Seq<RecordView>, i: int, k: int)
    requires
        well_nested(r),
        0 <= i,
        i + 1 < end(r, i, k),
        k <= r.len(),
    ensures
        parent_index(r, i + 1) == i,
{
    lemma_span(r, i, i + 1, k);
    assert(r[i + 1].depth > r[i].depth);
    assert(1 <= r[i + 1].depth <= r[i].depth + 1);
}

/// A flat tree with every depth lessened by `d`.
pub open spec fn rebased(s: Seq<RecordView>, d: int) -> Seq<RecordView> {
    s.map_values(|x: RecordView| RecordView { depth: x.depth - d, kind: x.kind, attrs: x.attrs })
}

/// Reading a grafted tree back, from record `i` on. In a store of the
/// shape that grafting gives, the flat form of the tree under the node of
/// record `i` is the part of the records from `i` to the end of its
/// tree, with the depths counted from that of record `i`.
pub proof fn lemma_reads_back(
    old: Seq<NodeView>,
    new: Seq<NodeView>,
    r: Seq<RecordView>,
    k: int,
    i: int,
    fuel: nat,
)
    requires
        well_nested(r),
        0 <= i < k <= r.len(),
        old.len() + r.len() <= usize::MAX,
        shaped(old, new, r, k),
        fuel >= end(r, i, k) - i,
    ensures
        listing(new, (old.len() + i) as usize, fuel) == rebased(
            r.subrange(i, end(r, i, k)),
            r[i].depth,
        ),
    decreases end(r, i, k) - i, 1int, 0int,
{
    let base = old.len() as int;
    let e = end(r, i, k);
    lemma_span(r, i, i + 1, k);
    let node = new[base + i];
    assert(node == grown(r, i, k, base) && new.len() == base + k) by {
        reveal(shaped);
    }
    let all = kids(r, i, i + 1, k, base);
    let inside = kids(r, i, i + 1, e, base);
    lemma_kids_split(r, i, i + 1, e, k, base);
    assert(kids(r, i, e, k, base) == Seq::<usize>::empty()) by {
        assert forall|j: int| e <= j < k implies parent_index(r, j) != i by {
            lemma_no_child_behind(r, i, j, k);
        }
        lemma_kids_none(r, i, e, k, base);
    }
    assert(all =~= inside);
    if i + 1 < e {
        lemma_first_child(r, i, k);
    }
    assert(kids(r, i, i + 1, i + 1, base) =~= Seq::<usize>::empty());
    lemma_reads_children(old, new, r, k, i, i + 1, (fuel - 1) as nat);
    let own = RecordView { depth: 0, kind: r[i].kind, attrs: r[i].attrs };
    assert(listing(new, (base + i) as usize, fuel) == seq![own] + listing_of_first(
        new,
        inside,
        inside.len(),
        (fuel - 1) as nat,
    ));
    assert(listing_of_first(new, inside, 0, (fuel - 1) as nat) =~= Seq::<RecordView>::empty());
    assert(seq![own] + rebased(r.subrange(i + 1, e), r[i].depth) =~= rebased(
        r.subrange(i, e),
        r[i].depth,
    ));
}

/// One level down and counted from one level further down is counted
/// from the level itself.
pub proof fn lemma_deeper_rebased(x: Seq<RecordView>, d: int)
    ensures
        deeper(rebased(x, d + 1)) == rebased(x, d),
{
    assert(deeper(rebased(x, d + 1)) =~= rebased(x, d));
}

/// Two parts of the records, one behind the other, are one part.
pub proof fn lemma_rebased_joined(r: Seq<RecordView>, a: int, b: int, c: int, d: int)
    requires
        0 <= a <= b <= c <= r.len(),
    ensures
        rebased(r.subrange(a, b), d) + rebased(r.subrange(b, c), d) == rebased(
            r.subrange(a, c),
            d,
        ),
{
    assert(rebased(r.subrange(a, b), d) + rebased(r.subrange(b, c), d) =~= rebased(
        r.subrange(a, c),
        d,
    ));
}

/// The children of record `i` up to the end of the tree of its child at
/// `c` are those before `c` and that child; and the child stands at that
/// place among all children inside the tree of `i`.
pub proof fn lemma_kids_step(r: Seq<RecordView>, i: int, c: int, k: int, base: int)
    requires
        well_nested(r),
        0 <= i < c < end(r, i, k),
        k <= r.len(),
        parent_index(r, c) == i,
    ensures
        kids(r, i, i + 1, end(r, c, k), base) == kids(r, i, i + 1, c, base).push(
            (base + c) as usize,
        ),
        kids(r, i, i + 1, c, base).len() < kids(r, i, i + 1, end(r, i, k), base).len(),
        kids(r, i, i + 1, end(r, i, k), base)[kids(r, i, i + 1, c, base).len() as int] == (base
            + c) as usize,
        c < end(r, c, k) <= end(r, i, k),
        end(r, c, k) == end(r, i, k) || parent_index(r, end(r, c, k)) == i,
{
    let e = end(r, i, k);
    lemma_span(r, i, i + 1, k);
    lemma_child_inside(r, i, c, k);
    let ce = end(r, c, k);
    lemma_span(r, c, c + 1, k);
    let before = kids(r, i, i + 1, c, base);
    let upto = kids(r, i, i + 1, ce, base);
    let inside = kids(r, i, i + 1, e, base);
    lemma_kids_split(r, i, i + 1, c + 1, ce, base);
    assert(kids(r, i, c + 1, ce, base) == Seq::<usize>::empty()) by {
        assert forall|j: int| c + 1 <= j < ce implies parent_index(r, j) != i by {
            lemma_no_child_inside(r, i, c, j, k);
        }
        lemma_kids_none(r, i, c + 1, ce, base);
    }
    assert(kids(r, i, i + 1, c + 1, base) == before.push((base + c) as usize));
    assert(upto =~= before.push((base + c) as usize));
    lemma_kids_split(r, i, i + 1, ce, e, base);
    assert(inside == upto + kids(r, i, ce, e, base));
    assert(inside[before.len() as int] == upto[before.len() as int]);
    if ce < e {
        lemma_next_child(r, i, c, k);
    }
}

/// Reading the children of record `i` back, from the child at position
/// `c` on: what the children up to the end of the tree give is what those
/// before `c` give, and behind it the records from `c` to the end of the
/// tree.
pub proof fn lemma_reads_children(
    old: Seq<NodeView>,
    new: Seq<NodeView>,
    r: Seq<RecordView>,
    k: int,
    i: int,
    c: int,
    fuel: nat,
)
    requires
        well_nested(r),
        0 <= i < c <= end(r, i, k),
        k <= r.len(),
        i < k,
        c == end(r, i, k) || parent_index(r, c) == i,
        old.len() + r.len() <= usize::MAX,
        shaped(old, new, r, k),
        fuel >= end(r, i, k) - i - 1,
    ensures
        ({
            let inside = kids(r, i, i + 1, end(r, i, k), old.len() as int);
            let before = kids(r, i, i + 1, c, old.len() as int);
            listing_of_first(new, inside, inside.len(), fuel) == listing_of_first(
                new,
                inside,
                before.len(),
                fuel,
            ) + rebased(r.subrange(c, end(r, i, k)), r[i].depth)
        }),
    decreases end(r, i, k) - i, 0int, end(r, i, k) - c,
{
    let base = old.len() as int;
    let e = end(r, i, k);
    lemma_span(r, i, i + 1, k);
    let inside = kids(r, i, i + 1, e, base);
    let before = kids(r, i, i + 1, c, base);
    if c == e {
        assert(r.subrange(c, e) =~= Seq::<RecordView>::empty());
        assert(listing_of_first(new, inside, inside.len(), fuel) + rebased(
            r.subrange(c, e),
            r[i].depth,
        ) =~= listing_of_first(new, inside, inside.len(), fuel));
    } else {
        lemma_kids_step(r, i, c, k, base);
        lemma_child_inside(r, i, c, k);
        let ce = end(r, c, k);
        let upto = kids(r, i, i + 1, ce, base);
        lemma_reads_children(old, new, r, k, i, ce, fuel);
        lemma_reads_back(old, new, r, k, c, fuel);
        let child = listing(new, (base + c) as usize, fuel);
        lemma_deeper_rebased(r.subrange(c, ce), r[i].depth);
        let step = rebased(r.subrange(c, ce), r[i].depth);
        assert(deeper(child) == step);
        let head = listing_of_first(new, inside, before.len(), fuel);
        assert(upto.len() == before.len() + 1);
        assert(listing_of_first(new, inside, upto.len(), fuel) == head + step);
        lemma_rebased_joined(r, c, ce, e, r[i].depth);
        let tail = rebased(r.subrange(ce, e), r[i].depth);
        assert((head + step) + tail =~= head + (step + tail));
    }
}

/// Reading back what was grafted. A flat tree that is grafted onto a
/// store can be read back from its root: the flat form of the tree under
/// the root is the flat tree itself, as soon as the depth that is walked
/// reaches the number of its records.
pub proof fn law_graft_reads_back(nodes: Seq<NodeView>, r: Seq<RecordView>, fuel: nat)
    requires
        well_nested(r),
        nodes.len() + r.len() <= usize::MAX,
        fuel >= r.len(),
    ensures
        listing(grafted(nodes, r, r.len()), nodes.len() as usize, fuel) == r,
{
    let k = r.len() as int;
    lemma_grafted_shape(nodes, r, r.len());
    lemma_span(r, 0, 1, k);
    assert(end(r, 0, k) == k) by {
        if end(r, 0, k) < k {
            let e = end(r, 0, k);
            assert(1 <= r[e].depth);
        }
    }
    lemma_reads_back(nodes, grafted(nodes, r, r.len()), r, k, 0, fuel);
    assert(r.subrange(0, k) =~= r);
    assert(rebased(r, 0) =~= r);
}

} // verus!
