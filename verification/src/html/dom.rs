//! The document tree: nodes in one store, each known by its index, with
//! parent and child links that the editing operations keep in step.
//!
//! A node's index never changes and no node is ever dropped from the
//! store, so an index taken before an edit still names the same node
//! after it. A node without a parent is the root of a tree of its own.

use vstd::prelude::*;
use crate::html::attr::{text_of, GetAttr};
use crate::text::{chars_of, extend, same_text, string_of};

verus! {

/// One attribute of an element.
pub struct Attribute {
    /// The namespace; empty for ordinary attributes.
    pub ns: String,
    /// The name within the namespace.
    pub local: String,
    /// The value.
    pub value: String,
}

/// An attribute over sequences of characters.
pub struct AttributeView {
    pub ns: Seq<char>,
    pub local: Seq<char>,
    pub value: Seq<char>,
}

impl View for Attribute {
    type V = AttributeView;

    open spec fn view(&self) -> AttributeView {
        AttributeView { ns: self.ns@, local: self.local@, value: self.value@ }
    }
}

/// What a node is.
pub enum NodeKind {
    /// The root of a parsed page.
    Document,
    /// A container that leaves no trace in the markup.
    Fragment,
    /// A doctype, by its name.
    Doctype(String),
    /// An element, by namespace and name within it, such as `style`.
    Element { ns: String, local: String },
    /// Text.
    Text(String),
    /// A comment.
    Comment(String),
    /// A processing instruction: target and data.
    Instruction(String, String),
}

/// A node's kind over sequences of characters.
pub enum KindView {
    Document,
    Fragment,
    Doctype(Seq<char>),
    Element { ns: Seq<char>, local: Seq<char> },
    Text(Seq<char>),
    Comment(Seq<char>),
    Instruction(Seq<char>, Seq<char>),
}

impl View for NodeKind {
    type V = KindView;

    open spec fn view(&self) -> KindView {
        match self {
            NodeKind::Document => KindView::Document,
            NodeKind::Fragment => KindView::Fragment,
            NodeKind::Doctype(name) => KindView::Doctype(name@),
            NodeKind::Element { ns, local } => KindView::Element { ns: ns@, local: local@ },
            NodeKind::Text(text) => KindView::Text(text@),
            NodeKind::Comment(text) => KindView::Comment(text@),
            NodeKind::Instruction(target, data) => KindView::Instruction(target@, data@),
        }
    }
}

/// The value of the attribute `name` without a namespace: that of the
/// first such attribute in `attrs`.
pub open spec fn attr_value(attrs: Seq<AttributeView>, name: Seq<char>) -> Option<Seq<char>>
    decreases attrs.len(),
{
    if attrs.len() == 0 {
        None
    } else if attrs[0].ns.len() == 0 && attrs[0].local == name {
        Some(attrs[0].value)
    } else {
        attr_value(attrs.drop_first(), name)
    }
}

/// Whether no two attributes of the list have the same namespace and
/// name.
pub open spec fn distinct_names(attrs: Seq<AttributeView>) -> bool {
    forall|i: int, j: int|
        0 <= i < attrs.len() && 0 <= j < attrs.len() && i != j ==> !(attrs[i].ns == attrs[j].ns
            && attrs[i].local == attrs[j].local)
}

/// Whether `attrs` can be the attributes of a node of the given kind:
/// their names are distinct, and only an element has any.
pub open spec fn attrs_ok(kind: KindView, attrs: Seq<AttributeView>) -> bool {
    &&& distinct_names(attrs)
    &&& (kind is Element || attrs.len() == 0)
}

impl KindView {
    /// Whether the node is an element of the given name, in any
    /// namespace.
    pub open spec fn is_named(self, local: Seq<char>) -> bool {
        match self {
            KindView::Element { ns, local: own } => own == local,
            _ => false,
        }
    }
}

/// One node of the store.
pub struct Node {
    /// What the node is.
    pub kind: NodeKind,
    /// The attributes, in the order of the source; none but on elements.
    pub attrs: Vec<Attribute>,
    /// The node that holds this one among its children.
    pub parent: Option<usize>,
    /// The children, first to last.
    pub children: Vec<usize>,
}

/// A node over sequences.
pub struct NodeView {
    pub kind: KindView,
    pub attrs: Seq<AttributeView>,
    pub parent: Option<usize>,
    pub children: Seq<usize>,
}

/// A list of attributes over sequences of characters.
pub open spec fn attrs_view(attrs: Seq<Attribute>) -> Seq<AttributeView> {
    attrs.map_values(|a: Attribute| a@)
}

impl View for Node {
    type V = NodeView;

    open spec fn view(&self) -> NodeView {
        NodeView {
            kind: self.kind@,
            attrs: attrs_view(self.attrs@),
            parent: self.parent,
            children: self.children@,
        }
    }
}

impl NodeView {
    /// The value of an attribute without a namespace.
    pub open spec fn attr(self, name: Seq<char>) -> Option<Seq<char>> {
        attr_value(self.attrs, name)
    }
}

impl GetAttr for Node {
    open spec fn attr(&self, name: Seq<char>) -> Option<Seq<char>> {
        attr_value(self@.attrs, name)
    }

    fn get_attr(&self, name: &str) -> (out: Option<String>) {
        let ghost all = self@.attrs;
        let mut i: usize = 0;
        assert(all.skip(0) == all);
        while i < self.attrs.len()
            invariant
                i <= self.attrs.len(),
                all == self@.attrs,
                all.len() == self.attrs.len(),
                attr_value(all, name@) == attr_value(all.skip(i as int), name@),
            decreases self.attrs.len() - i,
        {
            let a = &self.attrs[i];
            assert(all.skip(i as int)[0] == a@);
            if a.ns.as_str().unicode_len() == 0 && same_text(a.local.as_str(), name) {
                return Some(a.value.clone());
            }
            assert(all.skip(i as int).drop_first() == all.skip(i + 1));
            i += 1;
        }
        None
    }
}

/// The store of nodes.
pub struct Document {
    nodes: Vec<Node>,
}

impl View for Document {
    type V = Seq<NodeView>;

    closed spec fn view(&self) -> Seq<NodeView> {
        self.nodes@.map_values(|n: Node| n@)
    }
}

/// Whether the `i`-th child of `n` is a node whose parent is `n`.
pub open spec fn child_ok(nodes: Seq<NodeView>, n: int, i: int) -> bool {
    &&& nodes[n].children[i] < nodes.len()
    &&& nodes[nodes[n].children[i] as int].parent == Some(n as usize)
}

/// Whether the links of node `n` agree with those of its neighbours: its
/// parent lists it, its children name it as their parent, and no child
/// is listed twice. Its attributes are those of an element.
pub open spec fn node_ok(nodes: Seq<NodeView>, n: int) -> bool {
    &&& attrs_ok(nodes[n].kind, nodes[n].attrs)
    &&& match nodes[n].parent {
        Some(p) => p < nodes.len() && nodes[p as int].children.contains(n as usize),
        None => true,
    }
    &&& forall|i: int| 0 <= i < nodes[n].children.len() ==> child_ok(nodes, n, i)
    &&& nodes[n].children.no_duplicates()
}

/// Whether the links of every node agree, in a store that a vector can
/// hold.
pub open spec fn linked(nodes: Seq<NodeView>) -> bool {
    &&& nodes.len() <= usize::MAX
    &&& forall|n: int| 0 <= n < nodes.len() ==> #[trigger] node_ok(nodes, n)
}

/// A node with other children.
pub open spec fn with_children(node: NodeView, children: Seq<usize>) -> NodeView {
    NodeView { kind: node.kind, attrs: node.attrs, parent: node.parent, children }
}

/// A node with another parent.
pub open spec fn with_parent(node: NodeView, parent: Option<usize>) -> NodeView {
    NodeView { kind: node.kind, attrs: node.attrs, parent, children: node.children }
}

/// A node that stands alone.
pub open spec fn lone(kind: KindView, attrs: Seq<AttributeView>) -> NodeView {
    NodeView { kind, attrs, parent: None, children: Seq::empty() }
}

/// The store after node `n` has left its parent: the parent lists it no
/// more and `n` has no parent. Its own children stay with it.
pub open spec fn detached(nodes: Seq<NodeView>, n: usize) -> Seq<NodeView> {
    match nodes[n as int].parent {
        None => nodes,
        Some(p) => {
            let cut = nodes.update(
                p as int,
                with_children(nodes[p as int], nodes[p as int].children.remove_value(n)),
            );
            cut.update(n as int, with_parent(cut[n as int], None))
        },
    }
}

/// The store after `child` has left its place and become the last child
/// of `parent`.
pub open spec fn appended(nodes: Seq<NodeView>, parent: usize, child: usize) -> Seq<NodeView> {
    let free = detached(nodes, child);
    let grown = free.update(
        parent as int,
        with_children(free[parent as int], free[parent as int].children.push(child)),
    );
    grown.update(child as int, with_parent(grown[child as int], Some(parent)))
}

/// The store after `new` has left its place and become the sibling that
/// follows `target`. Where `target` has no parent there is no list to
/// join, and `new` is left without a parent.
pub open spec fn inserted_after(nodes: Seq<NodeView>, target: usize, new: usize) -> Seq<NodeView> {
    let free = detached(nodes, new);
    match free[target as int].parent {
        None => free,
        Some(p) => match free[p as int].children.index_of_first(target) {
            None => free,
            Some(at) => {
                let grown = free.update(
                    p as int,
                    with_children(free[p as int], free[p as int].children.insert(at + 1, new)),
                );
                grown.update(new as int, with_parent(grown[new as int], Some(p)))
            },
        },
    }
}

/// Removing a value from a list without repetitions takes out exactly
/// that value.
pub proof fn lemma_remove_value(s: Seq<usize>, x: usize)
    requires
        s.no_duplicates(),
    ensures
        s.remove_value(x).no_duplicates(),
        !s.remove_value(x).contains(x),
        forall|y: usize| y != x ==> (s.remove_value(x).contains(y) <==> s.contains(y)),
        forall|i: int|
            0 <= i < s.remove_value(x).len() ==> s.contains(#[trigger] s.remove_value(x)[i]),
{
    s.index_of_first_ensures(x);
    let r = s.remove_value(x);
    match s.index_of_first(x) {
        None => {},
        Some(at) => {
            assert(r == s.remove(at));
            assert forall|i: int| 0 <= i < r.len() implies s.contains(#[trigger] r[i]) by {
                if i < at {
                    assert(r[i] == s[i]);
                } else {
                    assert(r[i] == s[i + 1]);
                }
            }
            assert forall|i: int| 0 <= i < r.len() implies r[i] != x by {
                if i < at {
                    assert(r[i] == s[i]);
                } else {
                    assert(r[i] == s[i + 1]);
                }
            }
            assert forall|i: int, j: int| 0 <= i < r.len() && 0 <= j < r.len() && i != j implies r[i]
                != r[j] by {
                let a = if i < at { i } else { i + 1 };
                let b = if j < at { j } else { j + 1 };
                assert(r[i] == s[a] && r[j] == s[b]);
            }
            assert forall|y: usize| y != x && s.contains(y) implies r.contains(y) by {
                let k = choose|k: int| 0 <= k < s.len() && s[k] == y;
                if k < at {
                    assert(r[k] == y);
                } else {
                    assert(r[k - 1] == y);
                }
            }
        },
    }
}

/// Putting a value that a list lacks into it adds exactly that value.
pub proof fn lemma_insert_value(s: Seq<usize>, at: int, x: usize)
    requires
        s.no_duplicates(),
        !s.contains(x),
        0 <= at <= s.len(),
    ensures
        s.insert(at, x).no_duplicates(),
        s.insert(at, x).contains(x),
        forall|y: usize| y != x ==> (s.insert(at, x).contains(y) <==> s.contains(y)),
        forall|i: int|
            0 <= i < s.insert(at, x).len() ==> (#[trigger] s.insert(at, x)[i] == x || s.contains(
                s.insert(at, x)[i],
            )),
{
    let r = s.insert(at, x);
    assert(r[at] == x);
    assert forall|i: int| 0 <= i < r.len() implies (#[trigger] r[i] == x || s.contains(r[i])) by {
        if i < at {
            assert(r[i] == s[i]);
        } else if i > at {
            assert(r[i] == s[i - 1]);
        }
    }
    assert forall|i: int, j: int| 0 <= i < r.len() && 0 <= j < r.len() && i != j implies r[i]
        != r[j] by {
        if i < at {
            assert(r[i] == s[i]);
        } else if i > at {
            assert(r[i] == s[i - 1]);
        }
        if j < at {
            assert(r[j] == s[j]);
        } else if j > at {
            assert(r[j] == s[j - 1]);
        }
    }
    assert forall|y: usize| y != x && s.contains(y) implies r.contains(y) by {
        let k = choose|k: int| 0 <= k < s.len() && s[k] == y;
        if k < at {
            assert(r[k] == y);
        } else {
            assert(r[k + 1] == y);
        }
    }
}

/// In a store whose links agree, only a node's parent lists it.
pub proof fn lemma_listed_by_parent(nodes: Seq<NodeView>, m: int, n: usize)
    requires
        linked(nodes),
        0 <= m < nodes.len(),
        nodes[m].children.contains(n),
    ensures
        n < nodes.len(),
        nodes[n as int].parent == Some(m as usize),
{
    assert(node_ok(nodes, m));
    let i = choose|i: int| 0 <= i < nodes[m].children.len() && nodes[m].children[i] == n;
    assert(child_ok(nodes, m, i));
}

/// Detaching keeps the links in agreement, leaves `n` without a parent
/// and in no list of children, and changes no node's kind.
pub proof fn lemma_detached(nodes: Seq<NodeView>, n: usize)
    requires
        linked(nodes),
        n < nodes.len(),
    ensures
        linked(detached(nodes, n)),
        detached(nodes, n).len() == nodes.len(),
        detached(nodes, n)[n as int].parent is None,
        forall|m: int|
            0 <= m < nodes.len() ==> !(#[trigger] detached(nodes, n)[m]).children.contains(n),
        forall|m: int|
            0 <= m < nodes.len() ==> (#[trigger] detached(nodes, n)[m]).kind == nodes[m].kind
                && detached(nodes, n)[m].attrs == nodes[m].attrs && (m != n ==> detached(
                nodes,
                n,
            )[m].parent == nodes[m].parent),
{
    let d = detached(nodes, n);
    assert(node_ok(nodes, n as int));
    match nodes[n as int].parent {
        None => {
            assert forall|m: int| 0 <= m < nodes.len() implies !(#[trigger] d[m]).children.contains(
                n,
            ) by {
                if d[m].children.contains(n) {
                    lemma_listed_by_parent(nodes, m, n);
                }
            }
        },
        Some(p) => {
            let old_list = nodes[p as int].children;
            let new_list = old_list.remove_value(n);
            assert(node_ok(nodes, p as int));
            lemma_remove_value(old_list, n);
            assert forall|m: int| 0 <= m < nodes.len() implies d[m].children == (if m == p {
                new_list
            } else {
                nodes[m].children
            }) && d[m].parent == (if m == n {
                None
            } else {
                nodes[m].parent
            }) && d[m].kind == nodes[m].kind && d[m].attrs == nodes[m].attrs by {}
            assert forall|m: int| 0 <= m < nodes.len() implies !(#[trigger] d[m]).children.contains(
                n,
            ) by {
                if m == p {
                    assert(d[m].children == new_list);
                } else if d[m].children.contains(n) {
                    assert(d[m].children == nodes[m].children);
                    lemma_listed_by_parent(nodes, m, n);
                }
            }
            assert forall|m: int| 0 <= m < d.len() implies #[trigger] node_ok(d, m) by {
                assert(node_ok(nodes, m));
                assert(d[m].children == (if m == p {
                    new_list
                } else {
                    nodes[m].children
                }));
                assert(d[m].parent == (if m == n {
                    None
                } else {
                    nodes[m].parent
                }));
                match d[m].parent {
                    None => {},
                    Some(q) => {
                        assert(nodes[m].parent == Some(q));
                        assert(nodes[q as int].children.contains(m as usize));
                        assert(d[q as int].children == (if q == p {
                            new_list
                        } else {
                            nodes[q as int].children
                        }));
                    },
                }
                assert forall|i: int| 0 <= i < d[m].children.len() implies child_ok(d, m, i) by {
                    let c = d[m].children[i];
                    if m == p {
                        assert(old_list.contains(new_list[i]));
                        lemma_listed_by_parent(nodes, p as int, c);
                        assert(new_list.contains(c));
                    } else {
                        assert(child_ok(nodes, m, i));
                        if c == n {
                            assert(false);
                        }
                    }
                    assert(d[c as int].parent == (if c == n {
                        None
                    } else {
                        nodes[c as int].parent
                    }));
                }
            }
        },
    }
}

/// A store stays linked when a node that stands alone is added, as long
/// as it has room for one more.
pub proof fn lemma_pushed_linked(nodes: Seq<NodeView>, node: NodeView)
    requires
        linked(nodes),
        nodes.len() < usize::MAX,
        node.parent is None,
        node.children.len() == 0,
        attrs_ok(node.kind, node.attrs),
    ensures
        linked(nodes.push(node)),
{
    let more = nodes.push(node);
    assert forall|m: int| 0 <= m < more.len() implies #[trigger] node_ok(
        more,
        m,
    ) by {
        if m < nodes.len() {
            assert(node_ok(nodes, m));
            assert(more[m] == nodes[m]);
            match more[m].parent {
                Some(q) => {
                    assert(more[q as int] == nodes[q as int]);
                },
                None => {},
            }
            assert forall|i: int| 0 <= i < more[m].children.len() implies child_ok(
                more,
                m,
                i,
            ) by {
                assert(child_ok(nodes, m, i));
            }
        }
    }
}

/// Appending keeps the links in agreement.
pub proof fn lemma_appended(nodes: Seq<NodeView>, parent: usize, child: usize)
    requires
        linked(nodes),
        parent < nodes.len(),
        child < nodes.len(),
    ensures
        linked(appended(nodes, parent, child)),
        appended(nodes, parent, child).len() == nodes.len(),
        forall|m: int|
            0 <= m < nodes.len() ==> (#[trigger] appended(nodes, parent, child)[m]).kind
                == nodes[m].kind && appended(nodes, parent, child)[m].attrs == nodes[m].attrs && (m
                != child ==> appended(nodes, parent, child)[m].parent == nodes[m].parent),
        appended(nodes, parent, child)[child as int].parent == Some(parent),
{
    let free = detached(nodes, child);
    lemma_detached(nodes, child);
    let a = appended(nodes, parent, child);
    let new_list = free[parent as int].children.push(child);
    assert(!free[parent as int].children.contains(child));
    assert(node_ok(free, parent as int));
    assert(new_list.no_duplicates()) by {
        assert forall|i: int, j: int|
            0 <= i < new_list.len() && 0 <= j < new_list.len() && i != j implies new_list[i]
            != new_list[j] by {
            if i < new_list.len() - 1 {
                assert(free[parent as int].children.contains(new_list[i]));
            }
            if j < new_list.len() - 1 {
                assert(free[parent as int].children.contains(new_list[j]));
            }
        }
    }
    assert forall|m: int| 0 <= m < nodes.len() implies a[m].children == (if m == parent {
        new_list
    } else {
        free[m].children
    }) && a[m].parent == (if m == child {
        Some(parent)
    } else {
        free[m].parent
    }) && a[m].kind == nodes[m].kind && a[m].attrs == nodes[m].attrs by {}
    assert forall|m: int| 0 <= m < a.len() implies #[trigger] node_ok(a, m) by {
        assert(node_ok(free, m));
        match a[m].parent {
            None => {},
            Some(q) => {
                if m == child {
                    assert(new_list[new_list.len() - 1] == child);
                } else {
                    assert(free[q as int].children.contains(m as usize));
                    if q == parent {
                        let k = choose|k: int|
                            0 <= k < free[q as int].children.len() && free[q as int].children[k]
                                == m as usize;
                        assert(new_list[k] == m as usize);
                    }
                }
            },
        }
        assert forall|i: int| 0 <= i < a[m].children.len() implies child_ok(a, m, i) by {
            if m == parent && i == new_list.len() - 1 {
            } else {
                assert(child_ok(free, m, i));
                assert(free[m].children.contains(free[m].children[i]));
            }
        }
    }
}

/// Inserting keeps the links in agreement.
pub proof fn lemma_inserted_after(nodes: Seq<NodeView>, target: usize, new: usize)
    requires
        linked(nodes),
        target < nodes.len(),
        new < nodes.len(),
    ensures
        linked(inserted_after(nodes, target, new)),
        inserted_after(nodes, target, new).len() == nodes.len(),
        forall|m: int|
            0 <= m < nodes.len() ==> (#[trigger] inserted_after(nodes, target, new)[m]).kind
                == nodes[m].kind && inserted_after(nodes, target, new)[m].attrs == nodes[m].attrs,
{
    let free = detached(nodes, new);
    lemma_detached(nodes, new);
    let a = inserted_after(nodes, target, new);
    match free[target as int].parent {
        None => {},
        Some(p) => {
            assert(node_ok(free, target as int));
            let old_list = free[p as int].children;
            old_list.index_of_first_ensures(target);
            match old_list.index_of_first(target) {
                None => {},
                Some(at) => {
                    let new_list = old_list.insert(at + 1, new);
                    assert(node_ok(free, p as int));
                    assert(!old_list.contains(new));
                    lemma_insert_value(old_list, at + 1, new);
                    assert forall|m: int| 0 <= m < nodes.len() implies a[m].children == (if m
                        == p {
                        new_list
                    } else {
                        free[m].children
                    }) && a[m].parent == (if m == new {
                        Some(p)
                    } else {
                        free[m].parent
                    }) && a[m].kind == nodes[m].kind && a[m].attrs == nodes[m].attrs by {}
                    assert forall|m: int| 0 <= m < a.len() implies #[trigger] node_ok(a, m) by {
                        assert(node_ok(free, m));
                        match a[m].parent {
                            None => {},
                            Some(q) => {
                                if m != new {
                                    assert(free[q as int].children.contains(m as usize));
                                }
                            },
                        }
                        assert forall|i: int| 0 <= i < a[m].children.len() implies child_ok(
                            a,
                            m,
                            i,
                        ) by {
                            let c = a[m].children[i];
                            if m == p {
                                if c != new {
                                    assert(old_list.contains(c));
                                    lemma_listed_by_parent(free, p as int, c);
                                }
                            } else {
                                assert(child_ok(free, m, i));
                                assert(free[m].children.contains(c));
                            }
                        }
                    }
                },
            }
        },
    }
}

/// The first position of `x` in `list`.
fn position(list: &Vec<usize>, x: usize) -> (out: Option<usize>)
    ensures
        match out {
            Some(at) => list@.index_of_first(x) == Some(at as int) && at < list.len(),
            None => list@.index_of_first(x) is None,
        },
{
    proof {
        list@.index_of_first_ensures(x);
    }
    let mut i: usize = 0;
    while i < list.len()
        invariant
            i <= list.len(),
            forall|j: int| 0 <= j < i ==> list@[j] != x,
        decreases list.len() - i,
    {
        if list[i] == x {
            proof {
                list@.index_of_first_ensures(x);
            }
            return Some(i);
        }
        i += 1;
    }
    None
}

impl Document {
    /// A store without nodes.
    pub fn new() -> (out: Document)
        ensures
            out@.len() == 0,
            linked(out@),
    {
        Document { nodes: Vec::new() }
    }

    /// The number of nodes in the store.
    pub fn len(&self) -> (out: usize)
        ensures
            out == self@.len(),
    {
        self.nodes.len()
    }

    /// Adds a node of the given kind, alone, and returns its index.
    pub fn create(&mut self, kind: NodeKind, attrs: Vec<Attribute>) -> (id: usize)
        requires
            linked(old(self)@),
            attrs_ok(kind@, attrs_view(attrs@)),
        ensures
            id == old(self)@.len(),
            final(self)@ == old(self)@.push(lone(kind@, attrs_view(attrs@))),
            linked(final(self)@),
    {
        let id = self.nodes.len();
        self.nodes.push(Node { kind, attrs, parent: None, children: Vec::new() });
        proof {
            assert(self@ =~= old(self)@.push(lone(kind@, attrs_view(attrs@))));
            assert(self@.len() == self.nodes.len());
            assert forall|m: int| 0 <= m < self@.len() implies #[trigger] node_ok(self@, m) by {
                if m < id {
                    assert(node_ok(old(self)@, m));
                    assert(self@[m] == old(self)@[m]);
                    match self@[m].parent {
                        Some(q) => {
                            assert(self@[q as int] == old(self)@[q as int]);
                        },
                        None => {},
                    }
                    assert forall|i: int| 0 <= i < self@[m].children.len() implies child_ok(
                        self@,
                        m,
                        i,
                    ) by {
                        assert(child_ok(old(self)@, m, i));
                    }
                }
            }
        }
        id
    }

    /// What node `n` is.
    pub fn kind(&self, n: usize) -> (out: &NodeKind)
        requires
            n < self@.len(),
        ensures
            out@ == self@[n as int].kind,
    {
        &self.nodes[n].kind
    }

    /// Node `n` itself.
    pub fn node(&self, n: usize) -> (out: &Node)
        requires
            n < self@.len(),
        ensures
            out@ == self@[n as int],
    {
        &self.nodes[n]
    }

    /// The parent of node `n`.
    pub fn parent(&self, n: usize) -> (out: Option<usize>)
        requires
            n < self@.len(),
        ensures
            out == self@[n as int].parent,
    {
        self.nodes[n].parent
    }

    /// The children of node `n`, first to last.
    pub fn children(&self, n: usize) -> (out: &Vec<usize>)
        requires
            n < self@.len(),
        ensures
            out@ == self@[n as int].children,
    {
        &self.nodes[n].children
    }

    /// Takes node `n` out of its parent's children. Its own children stay
    /// with it, and it stays in the store under the same index.
    pub fn detach(&mut self, n: usize)
        requires
            linked(old(self)@),
            n < old(self)@.len(),
        ensures
            final(self)@ == detached(old(self)@, n),
            linked(final(self)@),
    {
        proof {
            lemma_detached(self@, n);
        }
        match self.nodes[n].parent {
            None => {},
            Some(p) => {
                assert(node_ok(self@, n as int));
                match position(&self.nodes[p].children, n) {
                    Some(at) => {
                        self.nodes[p].children.remove(at);
                    },
                    None => {},
                }
                self.nodes[n].parent = None;
                assert(self@ =~= detached(old(self)@, n));
            },
        }
    }

    /// Makes `child` the last child of `parent`, taking it out of its old
    /// place first.
    pub fn append(&mut self, parent: usize, child: usize)
        requires
            linked(old(self)@),
            parent < old(self)@.len(),
            child < old(self)@.len(),
        ensures
            final(self)@ == appended(old(self)@, parent, child),
            linked(final(self)@),
    {
        proof {
            lemma_appended(self@, parent, child);
            lemma_detached(self@, child);
        }
        self.detach(child);
        self.nodes[parent].children.push(child);
        self.nodes[child].parent = Some(parent);
        assert(self@ =~= appended(old(self)@, parent, child));
    }

    /// Makes `new` the sibling that follows `target`, taking it out of its
    /// old place first. A `target` without a parent has no siblings: `new`
    /// is then left without a parent.
    pub fn insert_after(&mut self, target: usize, new: usize)
        requires
            linked(old(self)@),
            target < old(self)@.len(),
            new < old(self)@.len(),
        ensures
            final(self)@ == inserted_after(old(self)@, target, new),
            linked(final(self)@),
    {
        proof {
            lemma_inserted_after(self@, target, new);
            lemma_detached(self@, new);
        }
        self.detach(new);
        let ghost free = self@;
        match self.nodes[target].parent {
            None => {},
            Some(p) => {
                assert(node_ok(free, target as int));
                match position(&self.nodes[p].children, target) {
                    None => {},
                    Some(at) => {
                        self.nodes[p].children.insert(at + 1, new);
                        self.nodes[new].parent = Some(p);
                        assert(self@ =~= inserted_after(old(self)@, target, new));
                    },
                }
            },
        }
    }
}

/// Node `n` and the nodes below it in document order: a node before its
/// children, the children first to last. `fuel` bounds the depth that is
/// walked; the number of nodes in the store is enough for any tree in it.
pub open spec fn order(nodes: Seq<NodeView>, n: usize, fuel: nat) -> Seq<usize>
    decreases fuel, 0nat,
{
    if fuel == 0 || n >= nodes.len() {
        Seq::empty()
    } else {
        seq![n] + order_of_first(
            nodes,
            nodes[n as int].children,
            nodes[n as int].children.len(),
            (fuel - 1) as nat,
        )
    }
}

/// The document order of the first `k` nodes of `list`, one after the
/// other.
pub open spec fn order_of_first(nodes: Seq<NodeView>, list: Seq<usize>, k: nat, fuel: nat) -> Seq<
    usize,
>
    decreases fuel, k,
{
    if k == 0 || k > list.len() {
        Seq::empty()
    } else {
        order_of_first(nodes, list, (k - 1) as nat, fuel) + order(nodes, list[k - 1], fuel)
    }
}

/// The text of node `n`, if it is a text node.
pub open spec fn text_at(nodes: Seq<NodeView>, n: usize) -> Seq<char> {
    if n < nodes.len() {
        match nodes[n as int].kind {
            KindView::Text(t) => t,
            _ => Seq::empty(),
        }
    } else {
        Seq::empty()
    }
}

/// The text of the text nodes among `ids`, in the order of `ids`.
pub open spec fn texts(nodes: Seq<NodeView>, ids: Seq<usize>) -> Seq<char>
    decreases ids.len(),
{
    if ids.len() == 0 {
        Seq::empty()
    } else {
        texts(nodes, ids.drop_last()) + text_at(nodes, ids.last())
    }
}

/// The text below node `n`: that of all text nodes in document order.
pub open spec fn text_contents_of(nodes: Seq<NodeView>, n: usize) -> Seq<char> {
    texts(nodes, order(nodes, n, nodes.len()))
}

/// A test on elements: by name, by a word of the `nib-mod` attribute, or
/// by both.
pub struct Selector {
    /// The name that the element must have, if any.
    pub name: Option<String>,
    /// The word that the element's `nib-mod` attribute must hold, if any.
    pub token: Option<String>,
}

/// A selector over sequences of characters.
pub struct SelectorView {
    pub name: Option<Seq<char>>,
    pub token: Option<Seq<char>>,
}

impl View for Selector {
    type V = SelectorView;

    open spec fn view(&self) -> SelectorView {
        SelectorView { name: text_of(self.name), token: text_of(self.token) }
    }
}

/// Whether a node passes a selector: it is an element, has the name asked
/// for, and its `nib-mod` attribute holds the word asked for.
pub open spec fn selects(sel: SelectorView, node: NodeView) -> bool {
    match node.kind {
        KindView::Element { ns, local } => {
            &&& match sel.name {
                Some(name) => local == name,
                None => true,
            }
            &&& match sel.token {
                Some(token) => match attr_value(node.attrs, "nib-mod"@) {
                    Some(value) => crate::text::has_token(value, token),
                    None => false,
                },
                None => true,
            }
        },
        _ => false,
    }
}

/// Those of `ids` that pass the selector, in the order of `ids`.
pub open spec fn picked(nodes: Seq<NodeView>, ids: Seq<usize>, sel: SelectorView) -> Seq<usize>
    decreases ids.len(),
{
    if ids.len() == 0 {
        Seq::empty()
    } else if ids.last() < nodes.len() && selects(sel, nodes[ids.last() as int]) {
        picked(nodes, ids.drop_last(), sel).push(ids.last())
    } else {
        picked(nodes, ids.drop_last(), sel)
    }
}

/// The elements at or below `root` that pass the selector, in document
/// order.
pub open spec fn selected(nodes: Seq<NodeView>, root: usize, sel: SelectorView) -> Seq<usize> {
    picked(nodes, order(nodes, root, nodes.len()), sel)
}

/// Every node that `picked` returns is one of `ids`, lies in the store
/// and passes the selector.
pub proof fn lemma_picked(nodes: Seq<NodeView>, ids: Seq<usize>, sel: SelectorView)
    ensures
        forall|i: int|
            0 <= i < picked(nodes, ids, sel).len() ==> {
                let n = #[trigger] picked(nodes, ids, sel)[i];
                n < nodes.len() && ids.contains(n) && selects(sel, nodes[n as int])
            },
    decreases ids.len(),
{
    if ids.len() > 0 {
        lemma_picked(nodes, ids.drop_last(), sel);
        let front = picked(nodes, ids.drop_last(), sel);
        assert forall|i: int| 0 <= i < picked(nodes, ids, sel).len() implies {
            let n = #[trigger] picked(nodes, ids, sel)[i];
            n < nodes.len() && ids.contains(n) && selects(sel, nodes[n as int])
        } by {
            let n = picked(nodes, ids, sel)[i];
            if i < front.len() {
                assert(n == front[i]);
                assert(ids.drop_last().contains(n));
                let k = choose|k: int| 0 <= k < ids.drop_last().len() && ids.drop_last()[k] == n;
                assert(ids[k] == n);
            } else {
                assert(n == ids.last());
                assert(ids[ids.len() - 1] == n);
            }
        }
    }
}

impl Selector {
    /// Tests a node.
    pub fn test(&self, node: &Node) -> (out: bool)
        ensures
            out == selects(self@, node@),
    {
        match &node.kind {
            NodeKind::Element { ns, local } => {
                let named = match &self.name {
                    Some(name) => same_text(local.as_str(), name.as_str()),
                    None => true,
                };
                if !named {
                    return false;
                }
                match &self.token {
                    Some(token) => match node.get_attr("nib-mod") {
                        Some(value) => crate::text::includes_token(
                            &chars_of(value.as_str()),
                            &chars_of(token.as_str()),
                        ),
                        None => false,
                    },
                    None => true,
                }
            },
            _ => false,
        }
    }
}

impl Document {
    /// Appends node `n` and what lies below it, in document order.
    fn walk(&self, n: usize, fuel: usize, out: &mut Vec<usize>)
        requires
            linked(self@),
            n < self@.len(),
        ensures
            final(out)@ == old(out)@ + order(self@, n, fuel as nat),
        decreases fuel,
    {
        if fuel == 0 {
            assert(old(out)@ + Seq::<usize>::empty() =~= old(out)@);
            return ;
        }
        out.push(n);
        let kids = &self.nodes[n].children;
        let mut i: usize = 0;
        assert(out@ =~= old(out)@ + (seq![n] + order_of_first(self@, kids@, 0, (fuel - 1) as nat)));
        while i < kids.len()
            invariant
                i <= kids.len(),
                linked(self@),
                n < self@.len(),
                kids@ == self@[n as int].children,
                fuel > 0,
                out@ == old(out)@ + (seq![n] + order_of_first(
                    self@,
                    kids@,
                    i as nat,
                    (fuel - 1) as nat,
                )),
            decreases kids.len() - i,
        {
            assert(node_ok(self@, n as int));
            assert(child_ok(self@, n as int, i as int));
            let ghost before = out@;
            self.walk(kids[i], fuel - 1, out);
            assert(out@ =~= old(out)@ + (seq![n] + order_of_first(
                self@,
                kids@,
                (i + 1) as nat,
                (fuel - 1) as nat,
            )));
            i += 1;
        }
    }

    /// Node `n` and the nodes below it, in document order.
    pub fn descendants(&self, n: usize) -> (out: Vec<usize>)
        requires
            linked(self@),
            n < self@.len(),
        ensures
            out@ == order(self@, n, self@.len()),
    {
        let mut out: Vec<usize> = Vec::new();
        self.walk(n, self.nodes.len(), &mut out);
        assert(Seq::<usize>::empty() + order(self@, n, self@.len()) =~= order(self@, n, self@.len()));
        out
    }

    /// The text below node `n`: that of all its text nodes, in document
    /// order.
    pub fn text_contents(&self, n: usize) -> (out: String)
        requires
            linked(self@),
            n < self@.len(),
        ensures
            out@ == text_contents_of(self@, n),
    {
        let ids = self.descendants(n);
        let mut acc: Vec<char> = Vec::new();
        let mut i: usize = 0;
        while i < ids.len()
            invariant
                i <= ids.len(),
                acc@ == texts(self@, ids@.take(i as int)),
            decreases ids.len() - i,
        {
            assert(ids@.take(i + 1).drop_last() == ids@.take(i as int));
            let id = ids[i];
            if id < self.nodes.len() {
                match &self.nodes[id].kind {
                    NodeKind::Text(t) => {
                        extend(&mut acc, &chars_of(t.as_str()));
                    },
                    _ => {
                        assert(acc@ + Seq::<char>::empty() =~= acc@);
                    },
                }
            } else {
                assert(acc@ + Seq::<char>::empty() =~= acc@);
            }
            i += 1;
        }
        assert(ids@.take(ids.len() as int) == ids@);
        string_of(&acc)
    }

    /// The elements at or below `root` that pass the selector, in
    /// document order.
    pub fn select(&self, root: usize, sel: &Selector) -> (out: Vec<usize>)
        requires
            linked(self@),
            root < self@.len(),
        ensures
            out@ == selected(self@, root, sel@),
            forall|i: int| 0 <= i < out@.len() ==> #[trigger] out@[i] < self@.len(),
    {
        let ids = self.descendants(root);
        let mut out: Vec<usize> = Vec::new();
        let mut i: usize = 0;
        while i < ids.len()
            invariant
                i <= ids.len(),
                out@ == picked(self@, ids@.take(i as int), sel@),
            decreases ids.len() - i,
        {
            assert(ids@.take(i + 1).drop_last() == ids@.take(i as int));
            let id = ids[i];
            if id < self.nodes.len() && sel.test(&self.nodes[id]) {
                out.push(id);
            }
            i += 1;
        }
        assert(ids@.take(ids.len() as int) == ids@);
        proof {
            lemma_picked(self@, ids@, sel@);
        }
        out
    }
}

/// The namespace of HTML elements.
pub open spec fn html_ns() -> Seq<char> {
    "http://www.w3.org/1999/xhtml"@
}

/// The store after the first `k` nodes of `list` have been appended to
/// `to`, one after the other.
pub open spec fn moved(nodes: Seq<NodeView>, list: Seq<usize>, k: nat, to: usize) -> Seq<NodeView>
    decreases k,
{
    if k == 0 || k > list.len() {
        nodes
    } else {
        appended(moved(nodes, list, (k - 1) as nat, to), to, list[k - 1])
    }
}

/// The store after all children of `from` have become children of `to`,
/// behind those that `to` had.
pub open spec fn moved_children(nodes: Seq<NodeView>, from: usize, to: usize) -> Seq<NodeView> {
    moved(nodes, nodes[from as int].children, nodes[from as int].children.len(), to)
}

/// A copy of a list of indices.
pub fn copy_ids(ids: &Vec<usize>) -> (out: Vec<usize>)
    ensures
        out@ == ids@,
{
    let mut out: Vec<usize> = Vec::new();
    let mut i: usize = 0;
    while i < ids.len()
        invariant
            i <= ids.len(),
            out@ == ids@.take(i as int),
        decreases ids.len() - i,
    {
        out.push(ids[i]);
        assert(ids@.take(i + 1) == ids@.take(i as int).push(ids@[i as int]));
        i += 1;
    }
    assert(ids@.take(ids.len() as int) == ids@);
    out
}

impl Document {
    /// Adds an HTML element without attributes.
    pub fn create_element(&mut self, local: &str) -> (id: usize)
        requires
            linked(old(self)@),
        ensures
            id == old(self)@.len(),
            final(self)@ == old(self)@.push(
                lone(KindView::Element { ns: html_ns(), local: local@ }, Seq::empty()),
            ),
            linked(final(self)@),
    {
        let attrs: Vec<Attribute> = Vec::new();
        assert(attrs_view(attrs@) =~= Seq::empty());
        self.create(
            NodeKind::Element { ns: "http://www.w3.org/1999/xhtml".to_owned(), local: local.to_owned() },
            attrs,
        )
    }

    /// Adds a text node.
    pub fn create_text(&mut self, text: String) -> (id: usize)
        requires
            linked(old(self)@),
        ensures
            id == old(self)@.len(),
            final(self)@ == old(self)@.push(lone(KindView::Text(text@), Seq::empty())),
            linked(final(self)@),
    {
        let attrs: Vec<Attribute> = Vec::new();
        assert(attrs_view(attrs@) =~= Seq::empty());
        self.create(NodeKind::Text(text), attrs)
    }

    /// Adds an empty fragment.
    pub fn create_fragment(&mut self) -> (id: usize)
        requires
            linked(old(self)@),
        ensures
            id == old(self)@.len(),
            final(self)@ == old(self)@.push(lone(KindView::Fragment, Seq::empty())),
            linked(final(self)@),
    {
        let attrs: Vec<Attribute> = Vec::new();
        assert(attrs_view(attrs@) =~= Seq::empty());
        self.create(NodeKind::Fragment, attrs)
    }

    /// Appends to `to` the nodes of `list`, in order.
    pub fn append_all(&mut self, list: &Vec<usize>, to: usize)
        requires
            linked(old(self)@),
            to < old(self)@.len(),
            forall|i: int| 0 <= i < list@.len() ==> #[trigger] list@[i] < old(self)@.len(),
        ensures
            final(self)@ == moved(old(self)@, list@, list@.len(), to),
            final(self)@.len() == old(self)@.len(),
            linked(final(self)@),
    {
        let mut i: usize = 0;
        while i < list.len()
            invariant
                i <= list.len(),
                linked(self@),
                self@.len() == old(self)@.len(),
                to < self@.len(),
                forall|j: int| 0 <= j < list@.len() ==> #[trigger] list@[j] < self@.len(),
                self@ == moved(old(self)@, list@, i as nat, to),
            decreases list.len() - i,
        {
            proof {
                lemma_appended(self@, to, list@[i as int]);
            }
            self.append(to, list[i]);
            i += 1;
        }
    }

    /// Makes all children of `from` children of `to`, behind those that
    /// `to` has.
    pub fn move_children(&mut self, from: usize, to: usize)
        requires
            linked(old(self)@),
            from < old(self)@.len(),
            to < old(self)@.len(),
        ensures
            final(self)@ == moved_children(old(self)@, from, to),
            final(self)@.len() == old(self)@.len(),
            linked(final(self)@),
    {
        let list = copy_ids(self.children(from));
        proof {
            assert(node_ok(self@, from as int));
            assert forall|i: int| 0 <= i < list@.len() implies #[trigger] list@[i] < self@.len() by {
                assert(child_ok(self@, from as int, i));
            }
        }
        self.append_all(&list, to);
    }
}

/// Whether some node of the store lists `n` among its children.
pub open spec fn listed(nodes: Seq<NodeView>, n: usize) -> bool {
    exists|m: int| 0 <= m < nodes.len() && (#[trigger] nodes[m]).children.contains(n)
}

/// Every node in the document order under `root`, but `root` itself, is
/// listed by some node as its child.
pub proof fn lemma_order_members(nodes: Seq<NodeView>, root: usize, fuel: nat, n: usize)
    requires
        order(nodes, root, fuel).contains(n),
        n != root,
    ensures
        listed(nodes, n),
    decreases fuel, 0nat,
{
    if fuel > 0 && root < nodes.len() {
        let list = nodes[root as int].children;
        let tail = order_of_first(nodes, list, list.len(), (fuel - 1) as nat);
        let at = choose|i: int|
            0 <= i < order(nodes, root, fuel).len() && order(nodes, root, fuel)[i] == n;
        assert(order(nodes, root, fuel) == seq![root] + tail);
        assert(at > 0);
        assert(tail[at - 1] == n);
        lemma_order_of_first_members(nodes, root as int, list, list.len(), (fuel - 1) as nat, n);
    }
}

/// Every node in the document order of the first `k` children of `owner`
/// is listed by some node as its child.
pub proof fn lemma_order_of_first_members(
    nodes: Seq<NodeView>,
    owner: int,
    list: Seq<usize>,
    k: nat,
    fuel: nat,
    n: usize,
)
    requires
        0 <= owner < nodes.len(),
        list == nodes[owner].children,
        order_of_first(nodes, list, k, fuel).contains(n),
    ensures
        listed(nodes, n),
    decreases fuel, k + 1,
{
    if k > 0 && k <= list.len() {
        let front = order_of_first(nodes, list, (k - 1) as nat, fuel);
        let last = order(nodes, list[k - 1], fuel);
        let all = order_of_first(nodes, list, k, fuel);
        assert(all == front + last);
        let at = choose|i: int| 0 <= i < all.len() && all[i] == n;
        if at < front.len() {
            assert(front[at] == n);
            lemma_order_of_first_members(nodes, owner, list, (k - 1) as nat, fuel, n);
        } else {
            assert(last[at - front.len()] == n);
            if n == list[k - 1] {
                assert(nodes[owner].children[k - 1] == n);
            } else {
                lemma_order_members(nodes, list[k - 1], fuel, n);
            }
        }
    }
}

/// A detached node is out of the document: it is in the document order
/// under no other node, however deep one looks.
pub proof fn law_detached_is_unreachable(nodes: Seq<NodeView>, n: usize, root: usize, fuel: nat)
    requires
        linked(nodes),
        n < nodes.len(),
        n != root,
    ensures
        !order(detached(nodes, n), root, fuel).contains(n),
{
    lemma_detached(nodes, n);
    let after = detached(nodes, n);
    if order(after, root, fuel).contains(n) {
        lemma_order_members(after, root, fuel, n);
        let m = choose|m: int| 0 <= m < after.len() && (#[trigger] after[m]).children.contains(n);
        assert(!after[m].children.contains(n));
    }
}

/// A node without a parent is in the document order under no other node
/// of a store whose links agree.
pub proof fn lemma_parentless_is_unreachable(nodes: Seq<NodeView>, n: usize, root: usize, fuel: nat)
    requires
        linked(nodes),
        n < nodes.len(),
        nodes[n as int].parent is None,
        n != root,
    ensures
        !order(nodes, root, fuel).contains(n),
{
    if order(nodes, root, fuel).contains(n) {
        lemma_order_members(nodes, root, fuel, n);
        let m = choose|m: int| 0 <= m < nodes.len() && (#[trigger] nodes[m]).children.contains(n);
        lemma_listed_by_parent(nodes, m, n);
    }
}

/// No node is in the document twice: in a store whose links agree a
/// node is listed in one place at most, by its parent.
pub proof fn law_listed_once(nodes: Seq<NodeView>, n: usize, m: int, i: int, k: int, j: int)
    requires
        linked(nodes),
        0 <= m < nodes.len(),
        0 <= i < nodes[m].children.len(),
        nodes[m].children[i] == n,
        0 <= k < nodes.len(),
        0 <= j < nodes[k].children.len(),
        nodes[k].children[j] == n,
    ensures
        m == k,
        i == j,
        n < nodes.len(),
        nodes[n as int].parent == Some(m as usize),
{
    assert(node_ok(nodes, m));
    assert(node_ok(nodes, k));
    assert(child_ok(nodes, m, i));
    assert(child_ok(nodes, k, j));
}

/// An inserted node follows at once: after `new` has been inserted
/// behind a `target` that has a parent, the parent lists `target` and
/// right behind it `new`, and `new` has that parent.
pub proof fn law_inserted_follows(nodes: Seq<NodeView>, target: usize, new: usize)
    requires
        linked(nodes),
        target < nodes.len(),
        new < nodes.len(),
        target != new,
        detached(nodes, new)[target as int].parent is Some,
    ensures
        ({
            let after = inserted_after(nodes, target, new);
            let p = detached(nodes, new)[target as int].parent.unwrap() as int;
            &&& linked(after)
            &&& after[new as int].parent == Some(p as usize)
            &&& after[target as int].parent == Some(p as usize) || target == new
            &&& exists|i: int|
                0 <= i && i + 1 < after[p].children.len() && #[trigger] after[p].children[i]
                    == target && after[p].children[i + 1] == new
        }),
{
    let free = detached(nodes, new);
    lemma_detached(nodes, new);
    lemma_inserted_after(nodes, target, new);
    let p = free[target as int].parent.unwrap();
    assert(node_ok(free, target as int));
    let list = free[p as int].children;
    list.index_of_first_ensures(target);
    let at = list.index_of_first(target).unwrap();
    let after = inserted_after(nodes, target, new);
    let grown = list.insert(at + 1, new);
    assert(after[p as int].children == grown || new == p);
    if new == p {
        assert(free[new as int].children.contains(target));
        lemma_listed_by_parent(free, new as int, target);
        let mid = free.update(p as int, with_children(free[p as int], grown));
        assert(after == mid.update(new as int, with_parent(mid[new as int], Some(p))));
        assert(after[p as int].children == grown);
    }
    assert(grown[at] == target && grown[at + 1] == new);
}

/// An appended node is the last child: after `child` has been appended
/// to `parent`, it is the last that `parent` lists and has `parent` as
/// its parent.
pub proof fn law_appended_is_last(nodes: Seq<NodeView>, parent: usize, child: usize)
    requires
        linked(nodes),
        parent < nodes.len(),
        child < nodes.len(),
    ensures
        ({
            let after = appended(nodes, parent, child);
            &&& linked(after)
            &&& after[parent as int].children.len() > 0
            &&& after[parent as int].children.last() == child
            &&& after[child as int].parent == Some(parent)
        }),
{
    lemma_appended(nodes, parent, child);
    lemma_detached(nodes, child);
    let free = detached(nodes, child);
    let list = free[parent as int].children.push(child);
    let grown = free.update(parent as int, with_children(free[parent as int], list));
    assert(grown[parent as int].children == list);
    assert(list.last() == child);
}

} // verus!
