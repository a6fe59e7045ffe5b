//! Reading and writing HTML: the parser and the serializer are those of
//! `kuchikiki`, whose trees are read into the store node by node and
//! built from it again for writing.

use vstd::prelude::*;
use vstd::utf8::encode_utf8;
use kuchikiki::traits::TendrilSink;
use kuchikiki::{ExpandedName, NodeData, NodeRef};
use crate::html::dom::{
    attrs_ok, attrs_view, child_ok, distinct_names, linked, node_ok, Attribute, Document, KindView,
    NodeKind, NodeView,
};
use crate::html::listing::{
    deeper, grafted, listing, listing_of_first, records_view, well_nested, Record, RecordView,
};

verus! {

/// A handle to a node of a `kuchikiki` tree. What the tree under it
/// holds goes by the name `dom_listing`.
#[verifier::external_type_specification]
#[verifier::external_body]
pub struct ExNodeRef(kuchikiki::NodeRef);

/// The flat form of the tree that a `kuchikiki` handle stands for: the
/// node and its descendants in document order, each with the number of
/// its ancestors, its kind and its attributes.
pub uninterp spec fn dom_listing(tree: NodeRef) -> Seq<RecordView>;

/// The flat form of the tree that `kuchikiki` parses out of a text as a
/// whole page.
pub uninterp spec fn html_document(text: Seq<char>) -> Seq<RecordView>;

/// The flat form of the tree that `kuchikiki` parses out of a text as the
/// content of a `div`.
pub uninterp spec fn html_fragment(text: Seq<char>) -> Seq<RecordView>;

/// The text that `kuchikiki` writes for the tree of the given flat form.
pub uninterp spec fn markup(tree: Seq<RecordView>) -> Seq<char>;

/// The longest text, in bytes, that is handed to the parser. The parser
/// keeps what it reads in buffers that hold up to 2^31 bytes, and a byte
/// of the text can take three bytes there.
pub const PARSE_LIMIT: usize = 0x2000_0000;

/// Whether a text is short enough for the parser: its UTF-8 form has no
/// more bytes than the limit.
pub open spec fn fits_parser(text: Seq<char>) -> bool {
    encode_utf8(text).len() <= PARSE_LIMIT
}

/// Tests a text for being short enough for the parser.
pub fn short_enough(text: &str) -> (out: bool)
    ensures
        out == fits_parser(text@),
{
    text.as_bytes().len() <= PARSE_LIMIT
}

/// `kuchikiki::parse_html`, fed one text that is short enough. The result
/// is the document node of a new tree: it has no ancestors, and its flat
/// form is well nested as that of any tree is.
#[verifier::external_body]
fn parse_document(text: &str) -> (out: NodeRef)
    requires
        fits_parser(text@),
    ensures
        dom_listing(out) == html_document(text@),
        well_nested(dom_listing(out)),
{
    kuchikiki::parse_html().one(text)
}

/// `kuchikiki::parse_fragment` in the context of an HTML `div` without
/// attributes, fed one text that is short enough. The result is the
/// document node of a new tree.
#[verifier::external_body]
fn parse_div_content(text: &str) -> (out: NodeRef)
    requires
        fits_parser(text@),
    ensures
        dom_listing(out) == html_fragment(text@),
        well_nested(dom_listing(out)),
{
    let context = html5ever::QualName::new(
        None,
        html5ever::Namespace::from("http://www.w3.org/1999/xhtml"),
        html5ever::LocalName::from("div"),
    );
    kuchikiki::parse_fragment(context, vec![]).one(text)
}

/// `NodeRef::inclusive_descendants`, each node mapped to the number of its
/// `ancestors`, which is the depth that the flat form gives it. The
/// handle must stand for a root.
#[verifier::external_body]
fn tree_depths(tree: &NodeRef) -> (out: Vec<usize>)
    requires
        stands_for_root(*tree),
    ensures
        out@.len() == dom_listing(*tree).len(),
        forall|i: int| 0 <= i < out@.len() ==> #[trigger] out@[i] == dom_listing(*tree)[i].depth,
{
    tree.inclusive_descendants().map(|n| n.ancestors().count()).collect()
}

/// `NodeRef::inclusive_descendants`, each node mapped to its kind as
/// `data` gives it: an element's namespace and local name, the content of
/// text and comment, target and data of a processing instruction, the
/// name of a doctype.
#[verifier::external_body]
fn tree_kinds(tree: &NodeRef) -> (out: Vec<NodeKind>)
    ensures
        out@.len() == dom_listing(*tree).len(),
        forall|i: int| 0 <= i < out@.len() ==> (#[trigger] out@[i])@ == dom_listing(*tree)[i].kind,
{
    tree.inclusive_descendants().map(|n| match n.data() {
        NodeData::Element(e) => NodeKind::Element { ns: e.name.ns.to_string(), local: e.name.local.to_string() },
        NodeData::Text(t) => NodeKind::Text(t.borrow().clone()),
        NodeData::Comment(t) => NodeKind::Comment(t.borrow().clone()),
        NodeData::ProcessingInstruction(p) => NodeKind::Instruction(p.borrow().0.clone(), p.borrow().1.clone()),
        NodeData::Doctype(d) => NodeKind::Doctype(d.name.clone()),
        NodeData::Document(_) => NodeKind::Document,
        NodeData::DocumentFragment => NodeKind::Fragment,
    }).collect()
}

/// `NodeRef::inclusive_descendants`, each node mapped to the attributes
/// that `as_element` shows, in the order of its map; a node that is no
/// element has none.
#[verifier::external_body]
fn tree_attrs(tree: &NodeRef) -> (out: Vec<Vec<Attribute>>)
    ensures
        out@.len() == dom_listing(*tree).len(),
        forall|i: int|
            0 <= i < out@.len() ==> attrs_view((#[trigger] out@[i])@) == dom_listing(*tree)[i].attrs,
{
    tree.inclusive_descendants().map(|n| match n.as_element() {
        Some(e) => e.attributes.borrow().map.iter().map(|(name, a)| Attribute {
            ns: name.ns.to_string(),
            local: name.local.to_string(),
            value: a.value.clone(),
        }).collect(),
        None => Vec::new(),
    }).collect()
}

/// `NodeRef::new_element`, with the attributes given without prefix. The
/// result is a new element without parent or children.
#[verifier::external_body]
fn new_element(ns: &str, local: &str, attrs: &Vec<Attribute>) -> (out: NodeRef)
    requires
        distinct_names(attrs_view(attrs@)),
    ensures
        dom_listing(out) == seq![
            RecordView {
                depth: 0,
                kind: KindView::Element { ns: ns@, local: local@ },
                attrs: attrs_view(attrs@),
            },
        ],
{
    NodeRef::new_element(
        html5ever::QualName::new(None, ns.into(), local.into()),
        attrs.iter().map(|a| (
            ExpandedName::new(a.ns.as_str(), a.local.as_str()),
            kuchikiki::Attribute { prefix: None, value: a.value.clone() },
        )),
    )
}

/// The constructors of `NodeRef` for the nodes that are no elements. The
/// result is a new node without parent or children. A doctype gets empty
/// public and system identifiers.
#[verifier::external_body]
fn new_leaf(kind: &NodeKind) -> (out: NodeRef)
    requires
        !(kind@ is Element),
    ensures
        dom_listing(out) == seq![RecordView { depth: 0, kind: kind@, attrs: Seq::empty() }],
{
    match kind {
        NodeKind::Text(t) => NodeRef::new_text(t.as_str()),
        NodeKind::Comment(t) => NodeRef::new_comment(t.as_str()),
        NodeKind::Instruction(t, d) => NodeRef::new_processing_instruction(t.as_str(), d.as_str()),
        NodeKind::Doctype(name) => NodeRef::new_doctype(name.as_str(), "", ""),
        NodeKind::Document => NodeRef::new_document(),
        _ => NodeRef::new(NodeData::DocumentFragment),
    }
}

/// A new `kuchikiki` node of the given kind and attributes.
fn new_node(kind: &NodeKind, attrs: &Vec<Attribute>) -> (out: NodeRef)
    requires
        attrs_ok(kind@, attrs_view(attrs@)),
    ensures
        dom_listing(out) == seq![RecordView { depth: 0, kind: kind@, attrs: attrs_view(attrs@) }],
{
    match kind {
        NodeKind::Element { ns, local } => new_element(ns.as_str(), local.as_str(), attrs),
        _ => {
            assert(attrs_view(attrs@) =~= Seq::empty());
            new_leaf(kind)
        },
    }
}

/// Whether a handle stands for a root: the node itself, which its flat
/// form lists first, has no ancestors.
pub open spec fn stands_for_root(tree: NodeRef) -> bool {
    dom_listing(tree).len() > 0 && dom_listing(tree)[0].depth == 0
}

/// `NodeRef::append`. Both handles must stand for roots. They share no
/// node: this module makes handles only by parsing and by `new_node`,
/// hands none out, and never copies one. The tree of `child` then follows
/// the nodes that `parent` had, one level down, and `parent` is a root
/// still.
#[verifier::external_body]
fn append_child(parent: &mut NodeRef, child: NodeRef)
    requires
        stands_for_root(*old(parent)),
        stands_for_root(child),
    ensures
        dom_listing(*final(parent)) == dom_listing(*old(parent)) + deeper(dom_listing(child)),
{
    parent.append(child)
}

/// `NodeRef::to_string`: the tree in HTML syntax.
#[verifier::external_body]
fn tree_markup(tree: &NodeRef) -> (out: String)
    ensures
        out@ == markup(dom_listing(*tree)),
{
    tree.to_string()
}

/// The records of a tree, read column by column.
fn tree_records(tree: &NodeRef) -> (out: Vec<Record>)
    requires
        stands_for_root(*tree),
    ensures
        records_view(out@) == dom_listing(*tree),
{
    let depths = tree_depths(tree);
    let mut kinds = tree_kinds(tree);
    let mut attrs = tree_attrs(tree);
    let ghost all_kinds = kinds@;
    let ghost all_attrs = attrs@;
    let mut stack: Vec<Record> = Vec::new();
    let mut i: usize = depths.len();
    while i > 0
        invariant
            i <= depths.len(),
            kinds@ == all_kinds.take(i as int),
            attrs@ == all_attrs.take(i as int),
            all_kinds.len() == depths.len(),
            all_attrs.len() == depths.len(),
            stack@.len() == depths.len() - i,
            forall|j: int|
                0 <= j < stack@.len() ==> (#[trigger] stack@[j])@ == (RecordView {
                    depth: depths@[depths.len() - 1 - j] as int,
                    kind: all_kinds[depths.len() - 1 - j]@,
                    attrs: attrs_view(all_attrs[depths.len() - 1 - j]@),
                }),
        decreases i,
    {
        let kind = kinds.pop().unwrap();
        let list = attrs.pop().unwrap();
        stack.push(Record { depth: depths[i - 1], kind, attrs: list });
        i -= 1;
    }
    let mut out: Vec<Record> = Vec::new();
    let ghost turned = stack@;
    while stack.len() > 0
        invariant
            stack@.len() + out@.len() == turned.len(),
            stack@ == turned.take(stack@.len() as int),
            forall|j: int|
                0 <= j < out@.len() ==> #[trigger] out@[j] == turned[turned.len() - 1 - j],
        decreases stack.len(),
    {
        let r = stack.pop().unwrap();
        out.push(r);
    }
    assert(records_view(out@) =~= dom_listing(*tree));
    out
}

/// The store after a text has been parsed as a whole page and the tree
/// has been added to it, with the index of the document node. A text
/// that is too long for the parser is not parsed: the store stays as it
/// is and there is no node.
pub open spec fn document_added(nodes: Seq<NodeView>, text: Seq<char>) -> (
    Seq<NodeView>,
    Option<usize>,
) {
    if fits_parser(text) {
        (
            grafted(nodes, html_document(text), html_document(text).len()),
            Some(nodes.len() as usize),
        )
    } else {
        (nodes, None)
    }
}

/// The store after a text has been parsed as the content of a `div` and
/// the tree has been added to it, with the index of the document node. A
/// text that is too long for the parser is not parsed: the store stays as
/// it is and there is no node.
pub open spec fn fragment_added(nodes: Seq<NodeView>, text: Seq<char>) -> (
    Seq<NodeView>,
    Option<usize>,
) {
    if fits_parser(text) {
        (
            grafted(nodes, html_fragment(text), html_fragment(text).len()),
            Some(nodes.len() as usize),
        )
    } else {
        (nodes, None)
    }
}

impl Document {
    /// Parses a whole page and adds its tree to the store. Returns the
    /// index of the document node; none, and the store as it was, where
    /// the text is too long for the parser.
    pub fn parse_html(&mut self, text: &str) -> (out: Option<usize>)
        requires
            linked(old(self)@),
        ensures
            (final(self)@, out) == document_added(old(self)@, text@),
            linked(final(self)@),
            match out {
                Some(root) => {
                    &&& well_nested(html_document(text@))
                    &&& final(self)@.len() == old(self)@.len() + html_document(text@).len()
                    &&& root < final(self)@.len()
                },
                None => true,
            },
    {
        if !short_enough(text) {
            return None;
        }
        let tree = parse_document(text);
        let records = tree_records(&tree);
        Some(self.graft(&records))
    }

    /// Parses a text as the content of a `div` and adds the tree to the
    /// store. Returns the index of its document node, whose one child
    /// holds what was parsed as its children; none, and the store as it
    /// was, where the text is too long for the parser.
    pub fn parse_fragment(&mut self, text: &str) -> (out: Option<usize>)
        requires
            linked(old(self)@),
        ensures
            (final(self)@, out) == fragment_added(old(self)@, text@),
            linked(final(self)@),
            match out {
                Some(root) => {
                    &&& well_nested(html_fragment(text@))
                    &&& final(self)@.len() == old(self)@.len() + html_fragment(text@).len()
                    &&& root < final(self)@.len()
                },
                None => true,
            },
    {
        if !short_enough(text) {
            return None;
        }
        let tree = parse_div_content(text);
        let records = tree_records(&tree);
        Some(self.graft(&records))
    }

    /// Builds the `kuchikiki` tree of node `n`, down to the depth that
    /// `fuel` allows.
    fn build(&self, n: usize, fuel: usize) -> (out: Option<NodeRef>)
        requires
            linked(self@),
            n < self@.len(),
        ensures
            match out {
                Some(tree) => fuel > 0 && dom_listing(tree) == listing(self@, n, fuel as nat),
                None => fuel == 0,
            },
        decreases fuel,
    {
        if fuel == 0 {
            return None;
        }
        assert(node_ok(self@, n as int));
        let node = self.node(n);
        let mut tree = new_node(&node.kind, &node.attrs);
        let kids = &node.children;
        let mut i: usize = 0;
        assert(dom_listing(tree) =~= dom_listing(tree) + listing_of_first(
            self@,
            kids@,
            0,
            (fuel - 1) as nat,
        ));
        while i < kids.len()
            invariant
                i <= kids.len(),
                linked(self@),
                n < self@.len(),
                fuel > 0,
                kids@ == self@[n as int].children,
                dom_listing(tree) == seq![
                    RecordView { depth: 0, kind: self@[n as int].kind, attrs: self@[n as int].attrs },
                ] + listing_of_first(self@, kids@, i as nat, (fuel - 1) as nat),
            decreases kids.len() - i,
        {
            assert(node_ok(self@, n as int));
            assert(child_ok(self@, n as int, i as int));
            let ghost before = dom_listing(tree);
            match self.build(kids[i], fuel - 1) {
                Some(child) => {
                    append_child(&mut tree, child);
                },
                None => {
                    assert(deeper(listing(self@, kids@[i as int], 0)) =~= Seq::empty());
                },
            }
            assert(dom_listing(tree) =~= before + deeper(
                listing(self@, kids@[i as int], (fuel - 1) as nat),
            ));
            assert(dom_listing(tree) =~= seq![
                RecordView { depth: 0, kind: self@[n as int].kind, attrs: self@[n as int].attrs },
            ] + listing_of_first(self@, kids@, (i + 1) as nat, (fuel - 1) as nat));
            i += 1;
        }
        Some(tree)
    }

    /// The tree under node `n` in HTML syntax.
    pub fn render(&self, n: usize) -> (out: String)
        requires
            linked(self@),
            n < self@.len(),
        ensures
            out@ == markup(listing(self@, n, self@.len())),
    {
        match self.build(n, self.len()) {
            Some(tree) => tree_markup(&tree),
            None => String::new(),
        }
    }
}

/// A page parsed and written again: the markup that the serializer
/// writes for the tree that the parser reads out of the text; none where
/// the text is too long for the parser. Going through the store changes
/// nothing.
pub fn reserialize(text: &str) -> (out: Option<String>)
    ensures
        match out {
            Some(written) => fits_parser(text@) && written@ == markup(html_document(text@)),
            None => !fits_parser(text@),
        },
{
    let mut doc = Document::new();
    let ghost start = doc@;
    let root = match doc.parse_html(text) {
        Some(root) => root,
        None => {
            return None;
        },
    };
    proof {
        assert(start =~= Seq::empty());
        crate::html::shape::law_graft_reads_back(start, html_document(text@), doc@.len());
    }
    Some(doc.render(root))
}

} // verus!
