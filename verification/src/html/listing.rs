//! Trees written flat: the nodes in document order, each with its depth.
//! This is the form in which trees pass between the store and the HTML
//! parser and serializer.

use vstd::prelude::*;
use crate::html::dom::{
    appended, attrs_ok, attrs_view, lone, linked, Attribute, AttributeView, Document, KindView,
    NodeKind, NodeView,
};

verus! {

/// One node of a flat tree.
pub struct Record {
    /// The number of ancestors that the node has in its tree.
    pub depth: usize,
    /// What the node is.
    pub kind: NodeKind,
    /// The attributes of the node.
    pub attrs: Vec<Attribute>,
}

/// A record over sequences.
pub struct RecordView {
    pub depth: int,
    pub kind: KindView,
    pub attrs: Seq<AttributeView>,
}

impl View for Record {
    type V = RecordView;

    open spec fn view(&self) -> RecordView {
        RecordView { depth: self.depth as int, kind: self.kind@, attrs: attrs_view(self.attrs@) }
    }
}

/// A list of records over sequences.
pub open spec fn records_view(records: Seq<Record>) -> Seq<RecordView> {
    records.map_values(|r: Record| r@)
}

/// Whether a list of records is the flat form of one tree: it starts with
/// the root at depth 0, every later node lies below the root and at most
/// one level below the node before it, and every node's attributes are
/// those of an element.
pub open spec fn well_nested(records: Seq<RecordView>) -> bool {
    &&& records.len() > 0
    &&& records[0].depth == 0
    &&& forall|i: int|
        1 <= i < records.len() ==> 1 <= (#[trigger] records[i]).depth <= records[i - 1].depth + 1
    &&& forall|i: int|
        0 <= i < records.len() ==> attrs_ok((#[trigger] records[i]).kind, records[i].attrs)
}

/// The position of the last of the first `k` records that has depth `d`;
/// -1 where none has.
pub open spec fn latest(records: Seq<RecordView>, k: int, d: int) -> int
    decreases k,
{
    if k <= 0 {
        -1
    } else if records[k - 1].depth == d {
        k - 1
    } else {
        latest(records, k - 1, d)
    }
}

/// The position of the parent of record `i`: the last record before it
/// that lies one level higher.
pub open spec fn parent_index(records: Seq<RecordView>, i: int) -> int {
    latest(records, i, records[i].depth - 1)
}

/// The store after the first `k` records have been added to it: each
/// becomes a new node, in order, and each but the root is appended to its
/// parent.
pub open spec fn grafted(nodes: Seq<NodeView>, records: Seq<RecordView>, k: nat) -> Seq<NodeView>
    decreases k,
{
    if k == 0 {
        nodes
    } else {
        let made = grafted(nodes, records, (k - 1) as nat).push(
            lone(records[k - 1].kind, records[k - 1].attrs),
        );
        if k == 1 {
            made
        } else {
            appended(
                made,
                (nodes.len() + parent_index(records, k - 1)) as usize,
                (nodes.len() + k - 1) as usize,
            )
        }
    }
}

/// A record one level further down.
pub open spec fn lowered(r: RecordView) -> RecordView {
    RecordView { depth: r.depth + 1, kind: r.kind, attrs: r.attrs }
}

/// A flat tree one level further down.
pub open spec fn deeper(records: Seq<RecordView>) -> Seq<RecordView> {
    records.map_values(|r: RecordView| lowered(r))
}

/// The flat form of the tree under node `n`, with `n` at depth 0. `fuel`
/// bounds the depth that is walked.
pub open spec fn listing(nodes: Seq<NodeView>, n: usize, fuel: nat) -> Seq<RecordView>
    decreases fuel, 0nat,
{
    if fuel == 0 || n >= nodes.len() {
        Seq::empty()
    } else {
        seq![RecordView { depth: 0, kind: nodes[n as int].kind, attrs: nodes[n as int].attrs }]
            + listing_of_first(
            nodes,
            nodes[n as int].children,
            nodes[n as int].children.len(),
            (fuel - 1) as nat,
        )
    }
}

/// The flat forms of the trees under the first `k` nodes of `list`, each
/// one level down, one after the other.
pub open spec fn listing_of_first(
    nodes: Seq<NodeView>,
    list: Seq<usize>,
    k: nat,
    fuel: nat,
) -> Seq<RecordView>
    decreases fuel, k,
{
    if k == 0 || k > list.len() {
        Seq::empty()
    } else {
        listing_of_first(nodes, list, (k - 1) as nat, fuel) + deeper(
            listing(nodes, list[k - 1], fuel),
        )
    }
}

/// A copy of a node's kind.
pub fn copy_kind(kind: &NodeKind) -> (out: NodeKind)
    ensures
        out@ == kind@,
{
    match kind {
        NodeKind::Document => NodeKind::Document,
        NodeKind::Fragment => NodeKind::Fragment,
        NodeKind::Doctype(name) => NodeKind::Doctype(name.clone()),
        NodeKind::Element { ns, local } => NodeKind::Element { ns: ns.clone(), local: local.clone() },
        NodeKind::Text(text) => NodeKind::Text(text.clone()),
        NodeKind::Comment(text) => NodeKind::Comment(text.clone()),
        NodeKind::Instruction(target, data) => NodeKind::Instruction(target.clone(), data.clone()),
    }
}

/// A copy of a list of attributes.
pub fn copy_attrs(attrs: &Vec<Attribute>) -> (out: Vec<Attribute>)
    ensures
        attrs_view(out@) == attrs_view(attrs@),
{
    let mut out: Vec<Attribute> = Vec::new();
    let mut i: usize = 0;
    while i < attrs.len()
        invariant
            i <= attrs.len(),
            out@.len() == i,
            forall|j: int| 0 <= j < i ==> (#[trigger] out@[j])@ == attrs@[j]@,
        decreases attrs.len() - i,
    {
        let a = &attrs[i];
        let copy = Attribute { ns: a.ns.clone(), local: a.local.clone(), value: a.value.clone() };
        out.push(copy);
        i += 1;
    }
    assert(attrs_view(out@) =~= attrs_view(attrs@));
    out
}

/// Whether `path` holds, for each depth up to that of record `i - 1`, the
/// node made from the last of the first `i` records at that depth.
pub open spec fn path_ok(path: Seq<usize>, flat: Seq<RecordView>, i: int, base: int) -> bool {
    &&& i == 0 ==> path.len() == 0
    &&& i > 0 ==> path.len() == flat[i - 1].depth + 1
    &&& forall|d: int|
        0 <= d < path.len() ==> 0 <= #[trigger] latest(flat, i, d) < i && path[d] == base + latest(
            flat,
            i,
            d,
        )
}

/// The path after one more record: cut back to the record's depth, with
/// the record's node at its end.
proof fn lemma_path_step(path: Seq<usize>, flat: Seq<RecordView>, i: int, base: int, id: usize)
    requires
        path_ok(path, flat, i, base),
        well_nested(flat),
        0 <= i < flat.len(),
        id == base + i,
    ensures
        i > 0 ==> 0 <= flat[i].depth - 1 < path.len() && path[flat[i].depth - 1] == base
            + parent_index(flat, i) && 0 <= parent_index(flat, i) < i,
        path_ok(path.take(flat[i].depth).push(id), flat, i + 1, base),
{
    let next = path.take(flat[i].depth).push(id);
    let depth = flat[i].depth;
    if i > 0 {
        assert(1 <= flat[i].depth <= flat[i - 1].depth + 1);
        assert(0 <= latest(flat, i, depth - 1) < i);
    }
    assert(latest(flat, i + 1, depth) == i);
    assert forall|d: int| 0 <= d < next.len() implies 0 <= #[trigger] latest(flat, i + 1, d) < i
        + 1 && next[d] == base + latest(flat, i + 1, d) by {
        if d < depth {
            assert(next[d] == path[d]);
            assert(latest(flat, i + 1, d) == latest(flat, i, d));
            assert(0 <= latest(flat, i, d) < i);
        }
    }
}

impl Document {
    /// Adds one node and, where a parent is given, appends it there.
    fn graft_one(&mut self, r: &Record, parent: Option<usize>) -> (id: usize)
        requires
            linked(old(self)@),
            attrs_ok(r@.kind, r@.attrs),
            match parent {
                Some(p) => p < old(self)@.len(),
                None => true,
            },
        ensures
            id == old(self)@.len(),
            final(self)@.len() == old(self)@.len() + 1,
            final(self)@ == (match parent {
                Some(p) => appended(old(self)@.push(lone(r@.kind, r@.attrs)), p, id),
                None => old(self)@.push(lone(r@.kind, r@.attrs)),
            }),
            linked(final(self)@),
    {
        let id = self.create(copy_kind(&r.kind), copy_attrs(&r.attrs));
        match parent {
            Some(p) => {
                proof {
                    crate::html::dom::lemma_appended(self@, p, id);
                }
                self.append(p, id);
            },
            None => {},
        }
        id
    }

    /// Adds a flat tree to the store and returns the index of its root.
    /// The nodes of the tree take the next free indices, in the order of
    /// the records.
    pub fn graft(&mut self, records: &Vec<Record>) -> (root: usize)
        requires
            linked(old(self)@),
            well_nested(records_view(records@)),
        ensures
            root == old(self)@.len(),
            final(self)@ == grafted(old(self)@, records_view(records@), records@.len()),
            final(self)@.len() == old(self)@.len() + records@.len(),
            linked(final(self)@),
    {
        let ghost flat = records_view(records@);
        let base = self.len();
        let mut path: Vec<usize> = Vec::new();
        let mut i: usize = 0;
        while i < records.len()
            invariant
                i <= records.len(),
                flat == records_view(records@),
                well_nested(flat),
                base == old(self)@.len(),
                linked(self@),
                self@.len() == base + i,
                self@ == grafted(old(self)@, flat, i as nat),
                path_ok(path@, flat, i as int, base as int),
            decreases records.len() - i,
        {
            let r = &records[i];
            assert(flat[i as int] == r@);
            proof {
                lemma_path_step(path@, flat, i as int, base as int, (base + i) as usize);
            }
            let ghost before = path@;
            let parent = if i > 0 {
                Some(path[r.depth - 1])
            } else {
                None
            };
            path.truncate(r.depth);
            let ghost earlier = self@;
            let id = self.graft_one(r, parent);
            path.push(id);
            assert(path@ == before.take(r.depth as int).push(id));
            assert(self@ == grafted(old(self)@, flat, (i + 1) as nat)) by {
                assert(earlier == grafted(old(self)@, flat, i as nat));
            }
            i += 1;
        }
        base
    }
}

} // verus!
