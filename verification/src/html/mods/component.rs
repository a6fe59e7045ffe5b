//! The component transform: an `object` or `link` element marked
//! `nib-mod="component"` is replaced by the HTML fragment that it names,
//! with the caller's values and content put in.

use vstd::prelude::*;
use crate::error::{ComponentModError, ComponentModErrorView, InsertResponseError};
use crate::html::attr::{href_of, text_of, GetAttr, Href, HrefView, Uri, UriView};
use crate::html::dom::{
    attr_value, child_ok, html_ns, linked, lone, moved, moved_children, node_ok, selected,
    AttributeView, Document, KindView, Node, NodeKind, NodeView, Selector, SelectorView,
};
use crate::html::listing::listing;
use crate::html::markup::{fragment_added, markup};
use crate::html::mods::fetch::replaced;
use crate::mediatype::{MediaType, MediaTypeBuf};
use crate::text::{
    chars_of, cut, extend, has_prefix, matches_at, same_text, starts_with, string_of,
};

verus! {

/// The values that a caller hands to a component, by name. A name that is
/// given twice has the value given last.
pub struct Props {
    /// Names and values in the order in which they were given.
    pub entries: Vec<(String, String)>,
}

/// The value that `name` has in a list of entries: that of the last entry
/// of that name.
pub open spec fn lookup(entries: Seq<(Seq<char>, Seq<char>)>, name: Seq<char>) -> Option<Seq<char>>
    decreases entries.len(),
{
    if entries.len() == 0 {
        None
    } else if entries.last().0 == name {
        Some(entries.last().1)
    } else {
        lookup(entries.drop_last(), name)
    }
}

impl View for Props {
    type V = Seq<(Seq<char>, Seq<char>)>;

    open spec fn view(&self) -> Seq<(Seq<char>, Seq<char>)> {
        self.entries@.map_values(|e: (String, String)| (e.0@, e.1@))
    }
}

impl Props {
    /// No values.
    pub fn new() -> (out: Props)
        ensures
            out@ == Seq::<(Seq<char>, Seq<char>)>::empty(),
    {
        let out = Props { entries: Vec::new() };
        assert(out@ =~= Seq::empty());
        out
    }

    /// Gives `name` the value `value`.
    pub fn set(&mut self, name: String, value: String)
        ensures
            final(self)@ == old(self)@.push((name@, value@)),
    {
        self.entries.push((name, value));
        assert(self@ =~= old(self)@.push((name@, value@)));
    }

    /// The value of `name`, if it has one.
    pub fn get(&self, name: &str) -> (out: Option<String>)
        ensures
            text_of(out) == lookup(self@, name@),
    {
        let mut i: usize = self.entries.len();
        assert(self@.take(i as int) == self@);
        while i > 0
            invariant
                i <= self.entries.len(),
                lookup(self@, name@) == lookup(self@.take(i as int), name@),
            decreases i,
        {
            let entry = &self.entries[i - 1];
            assert(self@.take(i as int).last() == (entry.0@, entry.1@));
            if same_text(entry.0.as_str(), name) {
                return Some(entry.1.clone());
            }
            assert(self@.take(i as int).drop_last() == self@.take(i - 1));
            i -= 1;
        }
        None
    }

    /// A copy of the values.
    pub fn copy(&self) -> (out: Props)
        ensures
            out@ == self@,
    {
        let mut out = Props { entries: Vec::new() };
        let mut i: usize = 0;
        while i < self.entries.len()
            invariant
                i <= self.entries.len(),
                out.entries@.len() == i,
                forall|j: int|
                    0 <= j < i ==> (#[trigger] out.entries@[j]).0@ == self.entries@[j].0@
                        && out.entries@[j].1@ == self.entries@[j].1@,
            decreases self.entries.len() - i,
        {
            let entry = &self.entries[i];
            out.entries.push((entry.0.clone(), entry.1.clone()));
            i += 1;
        }
        assert(out@ =~= self@);
        out
    }
}

/// What a caller hands to a component: values by name, and the fragment
/// that holds the content for the component's slot.
pub struct ComponentData {
    /// The values.
    pub props: Props,
    /// The fragment with the slot's content.
    pub slot: usize,
}

/// Whether a node is a `param` element.
pub open spec fn is_param(node: NodeView) -> bool {
    node.kind.is_named("param"@)
}

/// The entries that the first `k` nodes of `list` give: one for each
/// `param` element that has both `name` and `value`.
pub open spec fn params_of(nodes: Seq<NodeView>, list: Seq<usize>, k: nat) -> Seq<
    (Seq<char>, Seq<char>),
>
    decreases k,
{
    if k == 0 || k > list.len() {
        Seq::empty()
    } else {
        let before = params_of(nodes, list, (k - 1) as nat);
        let node = nodes[list[k - 1] as int];
        if is_param(node) && node.attr("name"@) is Some && node.attr("value"@) is Some {
            before.push((node.attr("name"@).unwrap(), node.attr("value"@).unwrap()))
        } else {
            before
        }
    }
}

/// Those of the first `k` nodes of `list` that are no `param` elements.
pub open spec fn slot_members(nodes: Seq<NodeView>, list: Seq<usize>, k: nat) -> Seq<usize>
    decreases k,
{
    if k == 0 || k > list.len() {
        Seq::empty()
    } else {
        let before = slot_members(nodes, list, (k - 1) as nat);
        if is_param(nodes[list[k - 1] as int]) {
            before
        } else {
            before.push(list[k - 1])
        }
    }
}

/// The store after the children of `node` that are no `param` elements
/// have been moved into a new fragment.
pub open spec fn slot_filled(nodes: Seq<NodeView>, node: usize) -> Seq<NodeView> {
    let list = nodes[node as int].children;
    let members = slot_members(nodes, list, list.len());
    moved(nodes.push(lone(KindView::Fragment, Seq::empty())), members, members.len(), nodes.len() as usize)
}

/// Tests whether a node is a `param` element.
pub fn param(node: &Node) -> (out: bool)
    ensures
        out == is_param(node@),
{
    match &node.kind {
        NodeKind::Element { ns, local } => same_text(local.as_str(), "param"),
        _ => false,
    }
}

/// Reads the values that an `object` element hands over from its `param`
/// children, and moves its other children into a new fragment, the slot.
pub fn get_props_from_object(doc: &mut Document, node: usize) -> (out: ComponentData)
    requires
        linked(old(doc)@),
        node < old(doc)@.len(),
    ensures
        linked(final(doc)@),
        final(doc)@ == slot_filled(old(doc)@, node),
        final(doc)@.len() == old(doc)@.len() + 1,
        out.slot == old(doc)@.len(),
        out.props@ == params_of(
            old(doc)@,
            old(doc)@[node as int].children,
            old(doc)@[node as int].children.len(),
        ),
{
    let list = crate::html::dom::copy_ids(doc.children(node));
    let mut props = Props::new();
    let mut members: Vec<usize> = Vec::new();
    let mut i: usize = 0;
    proof {
        assert(node_ok(doc@, node as int));
        assert forall|j: int| 0 <= j < list@.len() implies #[trigger] list@[j] < doc@.len() by {
            assert(child_ok(doc@, node as int, j));
        }
    }
    while i < list.len()
        invariant
            i <= list.len(),
            doc@ == old(doc)@,
            forall|j: int| 0 <= j < list@.len() ==> #[trigger] list@[j] < doc@.len(),
            props@ == params_of(doc@, list@, i as nat),
            members@ == slot_members(doc@, list@, i as nat),
            forall|j: int| 0 <= j < members@.len() ==> #[trigger] members@[j] < doc@.len(),
        decreases list.len() - i,
    {
        let child = doc.node(list[i]);
        if param(child) {
            match child.get_attr("name") {
                Some(name) => match child.get_attr("value") {
                    Some(value) => {
                        props.set(name, value);
                    },
                    None => {},
                },
                None => {},
            }
        } else {
            members.push(list[i]);
        }
        i += 1;
    }
    let slot = doc.create_fragment();
    doc.append_all(&members, slot);
    ComponentData { props, slot }
}

/// `text` without any occurrence of `pattern`, read from the left.
pub open spec fn without_all(text: Seq<char>, pattern: Seq<char>) -> Seq<char>
    decreases text.len(),
{
    if pattern.len() == 0 || text.len() < pattern.len() {
        text
    } else if has_prefix(text, pattern) {
        without_all(text.skip(pattern.len() as int), pattern)
    } else {
        seq![text[0]] + without_all(text.skip(1), pattern)
    }
}

/// Takes every occurrence of `pattern` out of `text`.
pub fn strip_all(text: &Vec<char>, pattern: &Vec<char>) -> (out: Vec<char>)
    ensures
        out@ == without_all(text@, pattern@),
{
    if pattern.len() == 0 {
        let out = cut(text, 0, text.len());
        assert(text@.subrange(0, text.len() as int) == text@);
        return out;
    }
    let mut out: Vec<char> = Vec::new();
    let mut i: usize = 0;
    assert(text@.skip(0) == text@);
    while i < text.len()
        invariant
            i <= text.len(),
            pattern.len() > 0,
            without_all(text@, pattern@) == out@ + without_all(text@.skip(i as int), pattern@),
        decreases text.len() - i,
    {
        let ghost rest = text@.skip(i as int);
        if matches_at(text, pattern, i) {
            assert(rest.subrange(0, pattern.len() as int) == text@.subrange(
                i as int,
                i + pattern.len(),
            ));
            assert(rest.skip(pattern.len() as int) == text@.skip(i + pattern.len()));
            i += pattern.len();
        } else {
            if text.len() - i >= pattern.len() {
                assert(rest.subrange(0, pattern.len() as int) == text@.subrange(
                    i as int,
                    i + pattern.len(),
                ));
                assert(rest.skip(1) == text@.skip(i + 1));
                out.push(text[i]);
                assert(out@ + without_all(text@.skip(i + 1), pattern@) =~= (out@.drop_last() + (
                seq![rest[0]] + without_all(rest.skip(1), pattern@))));
                i += 1;
            } else {
                let ghost before = out@;
                let tail = cut(text, i, text.len());
                extend(&mut out, &tail);
                assert(tail@ == rest);
                i = text.len();
                assert(text@.skip(i as int) =~= Seq::<char>::empty());
                assert(out@ + without_all(text@.skip(i as int), pattern@) =~= before + rest);
            }
        }
    }
    assert(text@.skip(text.len() as int) =~= Seq::<char>::empty());
    assert(out@ + Seq::<char>::empty() =~= out@);
    out
}

/// The entries that the first `k` attributes of an element give: one for
/// each attribute whose name begins with `nib-prop-` and that can be read
/// back by that name, under the name without `nib-prop-`.
pub open spec fn link_props(attrs: Seq<AttributeView>, k: nat) -> Seq<(Seq<char>, Seq<char>)>
    decreases k,
{
    if k == 0 || k > attrs.len() {
        Seq::empty()
    } else {
        let before = link_props(attrs, (k - 1) as nat);
        let local = attrs[k - 1].local;
        if has_prefix(local, "nib-prop-"@) && attr_value(attrs, local) is Some {
            before.push((without_all(local, "nib-prop-"@), attr_value(attrs, local).unwrap()))
        } else {
            before
        }
    }
}

/// Reads the values that a `link` element hands over in its `nib-prop-`
/// attributes. The slot is a new, empty fragment.
pub fn get_props_from_link(doc: &mut Document, node: usize) -> (out: ComponentData)
    requires
        linked(old(doc)@),
        node < old(doc)@.len(),
    ensures
        linked(final(doc)@),
        final(doc)@ == old(doc)@.push(lone(KindView::Fragment, Seq::empty())),
        out.slot == old(doc)@.len(),
        out.props@ == link_props(old(doc)@[node as int].attrs, old(doc)@[node as int].attrs.len()),
{
    let mut props = Props::new();
    let prefix = chars_of("nib-prop-");
    proof {
        reveal_strlit("nib-prop-");
    }
    let el = doc.node(node);
    let mut i: usize = 0;
    while i < el.attrs.len()
        invariant
            i <= el.attrs.len(),
            el@ == doc@[node as int],
            el@.attrs.len() == el.attrs.len(),
            prefix@ == "nib-prop-"@,
            prefix.len() > 0,
            props@ == link_props(el@.attrs, i as nat),
        decreases el.attrs.len() - i,
    {
        let a = &el.attrs[i];
        assert(el@.attrs[i as int] == a@);
        let local = chars_of(a.local.as_str());
        if starts_with(&local, &prefix) {
            match el.get_attr(a.local.as_str()) {
                Some(value) => {
                    props.set(string_of(&strip_all(&local, &prefix)), value);
                },
                None => {},
            }
        }
        i += 1;
    }
    let slot = doc.create_fragment();
    ComponentData { props, slot }
}

/// The store after `text` has been parsed as the content of a `div` and
/// what was parsed has become the children of a new fragment, and that
/// fragment; no fragment where the text is too long for the parser or
/// the parsed tree is empty.
pub open spec fn fragment_parsed(nodes: Seq<NodeView>, text: Seq<char>) -> (Seq<NodeView>, Option<usize>) {
    let added = fragment_added(nodes, text);
    match added.1 {
        None => (nodes, None),
        Some(root) => {
            let parsed = added.0;
            if parsed[root as int].children.len() == 0 {
                (parsed, None)
            } else {
                (
                    moved_children(
                        parsed.push(lone(KindView::Fragment, Seq::empty())),
                        parsed[root as int].children[0],
                        parsed.len() as usize,
                    ),
                    Some(parsed.len() as usize),
                )
            }
        },
    }
}

/// Parses a text as the content of a `div` and returns a new fragment
/// that holds what was parsed.
pub fn html_from_string(doc: &mut Document, s: &str) -> (out: Result<usize, ComponentModError>)
    requires
        linked(old(doc)@),
    ensures
        linked(final(doc)@),
        final(doc)@.len() >= old(doc)@.len(),
        final(doc)@ == fragment_parsed(old(doc)@, s@).0,
        match out {
            Ok(el) => fragment_parsed(old(doc)@, s@).1 == Some(el) && el < final(doc)@.len(),
            Err(e) => fragment_parsed(old(doc)@, s@).1 is None && e@
                == ComponentModErrorView::Insertion(MediaType::Html.essence_of()),
        },
{
    let root = match doc.parse_fragment(s) {
        Some(root) => root,
        None => {
            return Err(
                ComponentModError::Insertion(InsertResponseError(MediaTypeBuf::of(MediaType::Html))),
            );
        },
    };
    if doc.children(root).len() == 0 {
        return Err(ComponentModError::Insertion(InsertResponseError(MediaTypeBuf::of(MediaType::Html))));
    }
    let first = doc.children(root)[0];
    proof {
        assert(node_ok(doc@, root as int));
        assert(child_ok(doc@, root as int, 0));
    }
    let el = doc.create_fragment();
    doc.move_children(first, el);
    Ok(el)
}

/// The text that `html_escape` makes of a text by decoding its HTML
/// entities.
pub uninterp spec fn entities_decoded(text: Seq<char>) -> Seq<char>;

/// `html_escape::decode_html_entities`.
#[verifier::external_body]
fn decode_entities(text: &str) -> (out: String)
    ensures
        out@ == entities_decoded(text@),
{
    html_escape::decode_html_entities(text).into_owned()
}

/// The text of the text nodes among the first `k` nodes of `list`, one
/// after the other; none where there is no text node among them.
pub open spec fn direct_text(nodes: Seq<NodeView>, list: Seq<usize>, k: nat) -> Option<Seq<char>>
    decreases k,
{
    if k == 0 || k > list.len() {
        None
    } else {
        let before = direct_text(nodes, list, (k - 1) as nat);
        match nodes[list[k - 1] as int].kind {
            KindView::Text(t) => match before {
                Some(b) => Some(b + t),
                None => Some(t),
            },
            _ => before,
        }
    }
}

/// The store after the element `target` has been replaced by a new text
/// node.
pub open spec fn text_put(nodes: Seq<NodeView>, target: usize, value: Seq<char>) -> Seq<NodeView> {
    replaced(nodes.push(lone(KindView::Text(value), Seq::empty())), target, nodes.len() as usize)
}

/// The store after the `title` element `target` has been replaced by a
/// new one whose text is the markup of the fragment `inner`.
pub open spec fn retitled(nodes: Seq<NodeView>, target: usize, inner: usize) -> Seq<NodeView> {
    let text = markup(listing(nodes, inner, nodes.len()));
    let title = nodes.len() as usize;
    let made = nodes.push(
        lone(KindView::Element { ns: html_ns(), local: "title"@ }, Seq::empty()),
    ).push(lone(KindView::Text(text), Seq::empty()));
    replaced(crate::html::dom::appended(made, title, (nodes.len() + 1) as usize), target, title)
}

/// The value put in for a placeholder of the given name: the caller's
/// value of that name, and the empty text where the caller gave none.
pub open spec fn value_for(props: Seq<(Seq<char>, Seq<char>)>, name: Seq<char>) -> Seq<char> {
    match lookup(props, name) {
        Some(v) => v,
        None => Seq::empty(),
    }
}

/// The store after the nodes of `queue` from position `head` on have been
/// visited, and with them the children of every element that is no
/// marker, in the order in which they were found.
///
/// A `title` with text is replaced by a new `title`: its text has its
/// entities decoded and is parsed, what was parsed is itself substituted,
/// and its markup is the text of the new `title`. A `source` with a `slot`
/// attribute is replaced by the slot. A `param` with a name and without a
/// value is replaced by the caller's value of that name. Other markers
/// stay, and what lies below a marker is not visited.
///
/// `depth` bounds how often a `title` may hold another, and `steps` the
/// number of nodes visited.
pub open spec fn substituted(
    nodes: Seq<NodeView>,
    queue: Seq<usize>,
    head: nat,
    props: Seq<(Seq<char>, Seq<char>)>,
    slot: usize,
    depth: nat,
    steps: nat,
) -> Seq<NodeView>
    decreases depth, steps,
{
    if steps == 0 || head >= queue.len() {
        nodes
    } else {
        let target = queue[head as int];
        let node = nodes[target as int];
        let rest = (steps - 1) as nat;
        if node.kind.is_named("title"@) {
            let after = match direct_text(nodes, node.children, node.children.len()) {
                None => nodes,
                Some(content) => if depth == 0 {
                    nodes
                } else {
                    let parsed = fragment_parsed(nodes, entities_decoded(content));
                    match parsed.1 {
                        None => parsed.0,
                        Some(inner) => retitled(
                            substituted(
                                parsed.0,
                                parsed.0[inner as int].children,
                                0,
                                props,
                                slot,
                                (depth - 1) as nat,
                                usize::MAX as nat,
                            ),
                            target,
                            inner,
                        ),
                    }
                },
            };
            substituted(after, queue, head + 1, props, slot, depth, rest)
        } else if node.kind.is_named("source"@) {
            let after = if node.attr("slot"@) is Some {
                replaced(nodes, target, slot)
            } else {
                nodes
            };
            substituted(after, queue, head + 1, props, slot, depth, rest)
        } else if node.kind.is_named("param"@) {
            let after = match node.attr("name"@) {
                Some(name) => if node.attr("value"@) is None {
                    text_put(nodes, target, value_for(props, name))
                } else {
                    nodes
                },
                None => nodes,
            };
            substituted(after, queue, head + 1, props, slot, depth, rest)
        } else if node.kind is Element {
            substituted(nodes, queue + node.children, head + 1, props, slot, depth, rest)
        } else {
            substituted(nodes, queue, head + 1, props, slot, depth, rest)
        }
    }
}

/// Substitution of a value. Where the node that is visited next is a
/// `param` element with a name and without a value, it is replaced by a
/// text node that holds the caller's value of that name, or the empty
/// text where the caller gave none; then the visit goes on.
pub proof fn law_placeholder_takes_the_value(
    nodes: Seq<NodeView>,
    queue: Seq<usize>,
    head: nat,
    props: Seq<(Seq<char>, Seq<char>)>,
    slot: usize,
    depth: nat,
    steps: nat,
    name: Seq<char>,
)
    requires
        steps > 0,
        head < queue.len(),
        is_param(nodes[queue[head as int] as int]),
        nodes[queue[head as int] as int].attr("name"@) == Some(name),
        nodes[queue[head as int] as int].attr("value"@) is None,
    ensures
        substituted(nodes, queue, head, props, slot, depth, steps) == substituted(
            text_put(nodes, queue[head as int], value_for(props, name)),
            queue,
            head + 1,
            props,
            slot,
            depth,
            (steps - 1) as nat,
        ),
        lookup(props, name) is None ==> value_for(props, name) == Seq::<char>::empty(),
        lookup(props, name) is Some ==> value_for(props, name) == lookup(props, name).unwrap(),
{
    reveal_strlit("param");
    reveal_strlit("title");
    reveal_strlit("source");
    assert("param"@[0] == 'p' && "title"@[0] == 't' && "source"@[0] == 's');
}

/// Substitution of the slot. Where the node that is visited next is a
/// `source` element with a `slot` attribute, it is replaced by the
/// caller's slot; then the visit goes on. The slot leaves the place where
/// it stood before, as `replaced` says, and no node of a store whose
/// links agree is listed twice.
pub proof fn law_slot_takes_the_place(
    nodes: Seq<NodeView>,
    queue: Seq<usize>,
    head: nat,
    props: Seq<(Seq<char>, Seq<char>)>,
    slot: usize,
    depth: nat,
    steps: nat,
)
    requires
        steps > 0,
        head < queue.len(),
        nodes[queue[head as int] as int].kind.is_named("source"@),
        nodes[queue[head as int] as int].attr("slot"@) is Some,
    ensures
        substituted(nodes, queue, head, props, slot, depth, steps) == substituted(
            replaced(nodes, queue[head as int], slot),
            queue,
            head + 1,
            props,
            slot,
            depth,
            (steps - 1) as nat,
        ),
{
    reveal_strlit("title");
    reveal_strlit("source");
    assert("title"@[0] == 't' && "source"@[0] == 's');
}

/// The fragment `html` with the caller's values and slot put in.
pub open spec fn props_processed(
    nodes: Seq<NodeView>,
    html: usize,
    props: Seq<(Seq<char>, Seq<char>)>,
    slot: usize,
    depth: nat,
) -> Seq<NodeView> {
    substituted(nodes, nodes[html as int].children, 0, props, slot, depth, usize::MAX as nat)
}

/// The text of the text nodes among the children of `node`.
fn text_children(doc: &Document, node: usize) -> (out: Option<String>)
    requires
        linked(doc@),
        node < doc@.len(),
    ensures
        text_of(out) == direct_text(
            doc@,
            doc@[node as int].children,
            doc@[node as int].children.len(),
        ),
{
    let list = doc.children(node);
    let mut acc: Option<Vec<char>> = None;
    let mut i: usize = 0;
    while i < list.len()
        invariant
            i <= list.len(),
            linked(doc@),
            node < doc@.len(),
            list@ == doc@[node as int].children,
            match acc {
                Some(a) => direct_text(doc@, list@, i as nat) == Some(a@),
                None => direct_text(doc@, list@, i as nat) is None,
            },
        decreases list.len() - i,
    {
        assert(node_ok(doc@, node as int));
        assert(child_ok(doc@, node as int, i as int));
        match doc.kind(list[i]) {
            NodeKind::Text(t) => {
                let mut next = match acc {
                    Some(a) => a,
                    None => Vec::new(),
                };
                extend(&mut next, &chars_of(t.as_str()));
                assert(Seq::<char>::empty() + t@ =~= t@);
                acc = Some(next);
            },
            _ => {},
        }
        i += 1;
    }
    match acc {
        Some(a) => Some(string_of(&a)),
        None => None,
    }
}

/// Appends to `queue` the children of `node`.
fn enqueue_children(doc: &Document, node: usize, queue: &mut Vec<usize>)
    requires
        linked(doc@),
        node < doc@.len(),
        forall|i: int| 0 <= i < old(queue)@.len() ==> #[trigger] old(queue)@[i] < doc@.len(),
    ensures
        final(queue)@ == old(queue)@ + doc@[node as int].children,
        forall|i: int| 0 <= i < final(queue)@.len() ==> #[trigger] final(queue)@[i] < doc@.len(),
{
    let list = doc.children(node);
    let mut i: usize = 0;
    while i < list.len()
        invariant
            i <= list.len(),
            linked(doc@),
            node < doc@.len(),
            list@ == doc@[node as int].children,
            queue@ == old(queue)@ + list@.take(i as int),
            forall|j: int| 0 <= j < queue@.len() ==> #[trigger] queue@[j] < doc@.len(),
        decreases list.len() - i,
    {
        assert(node_ok(doc@, node as int));
        assert(child_ok(doc@, node as int, i as int));
        queue.push(list[i]);
        assert(list@.take(i + 1) == list@.take(i as int).push(list@[i as int]));
        i += 1;
    }
    assert(list@.take(list.len() as int) == list@);
}

/// Replaces a `title` by one whose text has the caller's values put in.
fn process_title(doc: &mut Document, target: usize, data: &ComponentData, depth: usize)
    requires
        linked(old(doc)@),
        target < old(doc)@.len(),
        data.slot < old(doc)@.len(),
    ensures
        linked(final(doc)@),
        final(doc)@.len() >= old(doc)@.len(),
        final(doc)@ == match direct_text(
            old(doc)@,
            old(doc)@[target as int].children,
            old(doc)@[target as int].children.len(),
        ) {
            None => old(doc)@,
            Some(content) => if depth == 0 {
                old(doc)@
            } else {
                let parsed = fragment_parsed(old(doc)@, entities_decoded(content));
                match parsed.1 {
                    None => parsed.0,
                    Some(inner) => retitled(
                        substituted(
                            parsed.0,
                            parsed.0[inner as int].children,
                            0,
                            data.props@,
                            data.slot,
                            (depth - 1) as nat,
                            usize::MAX as nat,
                        ),
                        target,
                        inner,
                    ),
                }
            },
        },
    decreases depth, 0nat,
{
    let content = match text_children(doc, target) {
        Some(content) => content,
        None => {
            return ;
        },
    };
    if depth == 0 {
        return ;
    }
    let decoded = decode_entities(content.as_str());
    let inner = match html_from_string(doc, decoded.as_str()) {
        Ok(inner) => inner,
        Err(_) => {
            return ;
        },
    };
    process_props(doc, inner, data, depth - 1);
    let text = doc.render(inner);
    let title = doc.create_element("title");
    let body = doc.create_text(text);
    proof {
        crate::html::dom::lemma_appended(doc@, title, body);
    }
    doc.append(title, body);
    crate::html::mods::fetch::replace(doc, target, title);
}

/// Puts the caller's values and slot into the fragment `html`: every
/// placeholder below it is replaced, as `substituted` says.
pub fn process_props(doc: &mut Document, html: usize, data: &ComponentData, depth: usize)
    requires
        linked(old(doc)@),
        html < old(doc)@.len(),
        data.slot < old(doc)@.len(),
    ensures
        linked(final(doc)@),
        final(doc)@.len() >= old(doc)@.len(),
        final(doc)@ == props_processed(old(doc)@, html, data.props@, data.slot, depth as nat),
    decreases depth, 1nat,
{
    let mut queue: Vec<usize> = Vec::new();
    enqueue_children(doc, html, &mut queue);
    assert(queue@ =~= old(doc)@[html as int].children);
    let mut head: usize = 0;
    let mut steps: usize = usize::MAX;
    while head < queue.len() && steps > 0
        invariant
            linked(doc@),
            doc@.len() >= old(doc)@.len(),
            data.slot < doc@.len(),
            head <= queue.len(),
            forall|j: int| 0 <= j < queue@.len() ==> #[trigger] queue@[j] < doc@.len(),
            props_processed(old(doc)@, html, data.props@, data.slot, depth as nat) == substituted(
                doc@,
                queue@,
                head as nat,
                data.props@,
                data.slot,
                depth as nat,
                steps as nat,
            ),
        decreases steps,
    {
        let target = queue[head];
        let ghost before = doc@;
        let ghost waiting = queue@;
        let title = match doc.kind(target) {
            NodeKind::Element { ns, local } => same_text(local.as_str(), "title"),
            _ => false,
        };
        let source = match doc.kind(target) {
            NodeKind::Element { ns, local } => same_text(local.as_str(), "source"),
            _ => false,
        };
        let element = match doc.kind(target) {
            NodeKind::Element { ns, local } => true,
            _ => false,
        };
        if title {
            process_title(doc, target, data, depth);
        } else if source {
            if doc.node(target).get_attr("slot").is_some() {
                crate::html::mods::fetch::replace(doc, target, data.slot);
            }
        } else if param(doc.node(target)) {
            match doc.node(target).get_attr("name") {
                Some(name) => {
                    if doc.node(target).get_attr("value").is_none() {
                        let value = match data.props.get(name.as_str()) {
                            Some(v) => v,
                            None => String::new(),
                        };
                        let text = doc.create_text(value);
                        crate::html::mods::fetch::replace(doc, target, text);
                    }
                },
                None => {},
            }
        } else if element {
            enqueue_children(doc, target, &mut queue);
        }
        head += 1;
        steps -= 1;
    }
}

/// The component transform for one page.
pub struct Mod {
    /// The URI of the page that is being transformed.
    pub page_uri: Uri,
}

/// The selector for components written as `object`.
pub open spec fn object_selector() -> SelectorView {
    SelectorView { name: Some("object"@), token: Some("component"@) }
}

/// The selector for components written as `link`.
pub open spec fn link_selector() -> SelectorView {
    SelectorView { name: Some("link"@), token: Some("component"@) }
}

/// The components under `root`: those written as `object` in document
/// order, then those written as `link`.
pub open spec fn components(nodes: Seq<NodeView>, root: usize) -> Seq<usize> {
    selected(nodes, root, object_selector()) + selected(nodes, root, link_selector())
}

/// What has to be asked for before a component can be composed.
pub enum ComponentJob {
    /// Nothing: the element stays.
    Skip,
    /// Nothing: the transform fails.
    Fail(ComponentModError),
    /// The resolver has to resolve a URI of this site.
    Internal(Uri),
    /// A URI has to be fetched over the network.
    External(Uri),
}

/// A job over sequences of characters.
pub enum ComponentJobView {
    Skip,
    Fail(ComponentModErrorView),
    Internal(UriView),
    External(UriView),
}

impl View for ComponentJob {
    type V = ComponentJobView;

    open spec fn view(&self) -> ComponentJobView {
        match self {
            ComponentJob::Skip => ComponentJobView::Skip,
            ComponentJob::Fail(e) => ComponentJobView::Fail(e@),
            ComponentJob::Internal(uri) => ComponentJobView::Internal(uri@),
            ComponentJob::External(uri) => ComponentJobView::External(uri@),
        }
    }
}

/// The job that a component's link stands for on a page. The link must
/// have the extension `html`. A full URI is fetched over the network; a
/// path is resolved against the page and handed to the resolver.
pub open spec fn component_job_for(href: HrefView, page: UriView) -> ComponentJobView {
    if href.extension() != Some("html"@) {
        ComponentJobView::Fail(ComponentModErrorView::LinkNotHtml)
    } else {
        match href {
            HrefView::Uri(uri) => ComponentJobView::External(uri),
            HrefView::Other(_) => ComponentJobView::Fail(ComponentModErrorView::InvalidHref(href)),
            _ => match href.resolved(page) {
                Ok(uri) => ComponentJobView::Internal(uri),
                Err(e) => ComponentJobView::Fail(ComponentModErrorView::InvalidUriParts(e)),
            },
        }
    }
}

/// The attribute that names the component: `data` on an `object`, `href`
/// on any other element.
pub open spec fn link_attr(node: NodeView) -> Seq<char> {
    if node.kind.is_named("object"@) {
        "data"@
    } else {
        "href"@
    }
}

/// The job for a component element: none where it has no link, else the
/// job of the link.
pub open spec fn component_job_of(node: NodeView, page: UriView) -> ComponentJobView {
    match node.attr(link_attr(node)) {
        None => ComponentJobView::Skip,
        Some(value) => match href_of(value) {
            None => ComponentJobView::Skip,
            Some(href) => component_job_for(href, page),
        },
    }
}

/// The store after the caller's data has been read off a component
/// element: an `object` has its content moved into the slot, any other
/// element gets an empty slot.
pub open spec fn data_read(nodes: Seq<NodeView>, target: usize) -> Seq<NodeView> {
    if nodes[target as int].kind.is_named("object"@) {
        slot_filled(nodes, target)
    } else {
        nodes.push(lone(KindView::Fragment, Seq::empty()))
    }
}

/// The values that a component element hands over.
pub open spec fn props_read(nodes: Seq<NodeView>, target: usize) -> Seq<(Seq<char>, Seq<char>)> {
    let node = nodes[target as int];
    if node.kind.is_named("object"@) {
        params_of(nodes, node.children, node.children.len())
    } else {
        link_props(node.attrs, node.attrs.len())
    }
}

/// The body of a component that came over the network: it must be
/// declared as HTML.
pub open spec fn remote_body(content_type: Seq<char>, body: Seq<u8>) -> Result<
    Seq<u8>,
    ComponentModErrorView,
> {
    if crate::mediatype::media_type_named(content_type) == MediaType::Html {
        Ok(body)
    } else {
        Err(ComponentModErrorView::LinkNotHtml)
    }
}

/// The store after the body of a component has been made a fragment with
/// the caller's data put in, and that fragment. A body that is not UTF-8
/// is no HTML; one that parses to nothing cannot be inserted.
pub open spec fn expanded(
    nodes: Seq<NodeView>,
    body: Seq<u8>,
    props: Seq<(Seq<char>, Seq<char>)>,
    slot: usize,
) -> (Seq<NodeView>, Result<usize, ComponentModErrorView>) {
    if !vstd::utf8::valid_utf8(body) {
        (nodes, Err(ComponentModErrorView::LinkNotHtml))
    } else {
        let parsed = fragment_parsed(nodes, vstd::utf8::decode_utf8(body));
        match parsed.1 {
            None => (
                parsed.0,
                Err(ComponentModErrorView::Insertion(MediaType::Html.essence_of())),
            ),
            Some(el) => (props_processed(parsed.0, el, props, slot, usize::MAX as nat), Ok(el)),
        }
    }
}

impl Mod {
    /// The transform for the page of the given URI.
    pub fn new(page_uri: Uri) -> (out: Mod)
        ensures
            out.page_uri@ == page_uri@,
    {
        Mod { page_uri }
    }

    /// The component elements under `root`.
    pub fn targets(&self, doc: &Document, root: usize) -> (out: Vec<usize>)
        requires
            linked(doc@),
            root < doc@.len(),
        ensures
            out@ == components(doc@, root),
            forall|i: int| 0 <= i < out@.len() ==> #[trigger] out@[i] < doc@.len(),
    {
        let objects = Selector {
            name: Some("object".to_owned()),
            token: Some("component".to_owned()),
        };
        let links = Selector { name: Some("link".to_owned()), token: Some("component".to_owned()) };
        let mut out = doc.select(root, &objects);
        let more = doc.select(root, &links);
        let mut i: usize = 0;
        let ghost first = out@;
        while i < more.len()
            invariant
                i <= more.len(),
                out@ == first + more@.take(i as int),
                forall|j: int| 0 <= j < more@.len() ==> #[trigger] more@[j] < doc@.len(),
                forall|j: int| 0 <= j < out@.len() ==> #[trigger] out@[j] < doc@.len(),
            decreases more.len() - i,
        {
            out.push(more[i]);
            assert(more@.take(i + 1) == more@.take(i as int).push(more@[i as int]));
            i += 1;
        }
        assert(more@.take(more.len() as int) == more@);
        out
    }

    /// Begins the fetch of a component: says what has to be asked for
    /// before the link can be composed. A link whose path does not have
    /// the extension `html` is refused, and so nothing is asked for on
    /// its account.
    pub fn perform_fetch(&self, href: Href) -> (out: ComponentJob)
        ensures
            out@ == component_job_for(href@, self.page_uri@),
            href@.extension() != Some("html"@) ==> out@ == ComponentJobView::Fail(
                ComponentModErrorView::LinkNotHtml,
            ),
    {
        let html = match href.extension() {
            Some(ext) => same_text(ext.as_str(), "html"),
            None => false,
        };
        if !html {
            return ComponentJob::Fail(ComponentModError::LinkNotHtml);
        }
        match href {
            Href::Uri(uri) => ComponentJob::External(uri),
            Href::Other(text) => ComponentJob::Fail(ComponentModError::InvalidHref(Href::Other(text))),
            Href::Absolute(path) => match Href::Absolute(path).append_to_uri(&self.page_uri) {
                Ok(uri) => ComponentJob::Internal(uri),
                Err(e) => ComponentJob::Fail(ComponentModError::InvalidUriParts(e)),
            },
            Href::Relative(path) => match Href::Relative(path).append_to_uri(&self.page_uri) {
                Ok(uri) => ComponentJob::Internal(uri),
                Err(e) => ComponentJob::Fail(ComponentModError::InvalidUriParts(e)),
            },
        }
    }

    /// Reads the caller's data off the component element `target` and
    /// says what has to be asked for before it can be composed.
    pub fn plan(&self, doc: &mut Document, target: usize) -> (out: (ComponentData, ComponentJob))
        requires
            linked(old(doc)@),
            target < old(doc)@.len(),
        ensures
            linked(final(doc)@),
            final(doc)@ == data_read(old(doc)@, target),
            final(doc)@.len() == old(doc)@.len() + 1,
            out.0.slot == old(doc)@.len(),
            out.0.props@ == props_read(old(doc)@, target),
            out.1@ == component_job_of(old(doc)@[target as int], self.page_uri@),
    {
        let object = match doc.kind(target) {
            NodeKind::Element { ns, local } => same_text(local.as_str(), "object"),
            _ => false,
        };
        let value = if object {
            doc.node(target).get_attr("data")
        } else {
            doc.node(target).get_attr("href")
        };
        let data = if object {
            get_props_from_object(doc, target)
        } else {
            get_props_from_link(doc, target)
        };
        let job = match value {
            None => ComponentJob::Skip,
            Some(value) => match Href::try_from(value.as_str()) {
                Err(_) => ComponentJob::Skip,
                Ok(href) => self.perform_fetch(href),
            },
        };
        (data, job)
    }

    /// The body of a component that came over the network.
    pub fn accept_remote(&self, content_type: &str, body: Vec<u8>) -> (out: Result<
        Vec<u8>,
        ComponentModError,
    >)
        ensures
            match out {
                Ok(b) => remote_body(content_type@, body@) == Ok::<Seq<u8>, ComponentModErrorView>(
                    b@,
                ),
                Err(e) => remote_body(content_type@, body@) == Err::<
                    Seq<u8>,
                    ComponentModErrorView,
                >(e@),
            },
    {
        if MediaType::from_essence(content_type) == MediaType::Html {
            Ok(body)
        } else {
            Err(ComponentModError::LinkNotHtml)
        }
    }

    /// Ends the fetch of a component: makes its body a fragment and puts
    /// the caller's data in.
    pub fn expand(&self, doc: &mut Document, body: Vec<u8>, data: &ComponentData) -> (out:
        Result<usize, ComponentModError>)
        requires
            linked(old(doc)@),
            data.slot < old(doc)@.len(),
        ensures
            linked(final(doc)@),
            final(doc)@.len() >= old(doc)@.len(),
            final(doc)@ == expanded(old(doc)@, body@, data.props@, data.slot).0,
            match out {
                Ok(el) => el < final(doc)@.len() && expanded(
                    old(doc)@,
                    body@,
                    data.props@,
                    data.slot,
                ).1 == Ok::<usize, ComponentModErrorView>(el),
                Err(e) => expanded(old(doc)@, body@, data.props@, data.slot).1 == Err::<
                    usize,
                    ComponentModErrorView,
                >(e@),
            },
    {
        let contents = match crate::html::mods::fetch::utf8_text(body) {
            Some(text) => text,
            None => {
                return Err(ComponentModError::LinkNotHtml);
            },
        };
        let el = match html_from_string(doc, contents.as_str()) {
            Ok(el) => el,
            Err(e) => {
                return Err(e);
            },
        };
        process_props(doc, el, data, usize::MAX);
        Ok(el)
    }
}

} // verus!
