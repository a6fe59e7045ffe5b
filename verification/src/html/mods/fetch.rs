//! The fetch transform: an element marked `nib-mod="fetch"` is replaced
//! by the resource that its `href` names.

use vstd::prelude::*;
use vstd::utf8::{decode_utf8, valid_utf8};
use crate::html::attr::{href_of, GetAttr, Href, HrefView, Uri, UriView};
use crate::html::dom::{
    appended, detached, html_ns, inserted_after, linked, lone, moved_children, selected, Document,
    KindView, NodeView, Selector, SelectorView,
};
use crate::html::markup::fragment_added;
use crate::mediatype::{declared_type, media_type_named, MediaType, MediaTypeBuf};
pub use crate::error::{FetchError, FetchErrorView, InsertResponseError};
use crate::text::same_text;

verus! {

/// `String::from_utf8`: the text that the bytes spell, where they are
/// UTF-8.
#[verifier::external_body]
pub(crate) fn utf8_text(bytes: Vec<u8>) -> (out: Option<String>)
    ensures
        match out {
            Some(text) => valid_utf8(bytes@) && text@ == decode_utf8(bytes@),
            None => !valid_utf8(bytes@),
        },
{
    String::from_utf8(bytes).ok()
}

/// The text that bytes spell; empty where they are not UTF-8.
pub open spec fn lenient_text(bytes: Seq<u8>) -> Seq<char> {
    if valid_utf8(bytes) {
        decode_utf8(bytes)
    } else {
        Seq::empty()
    }
}

/// What a fetched resource is put into.
#[derive(Clone, Copy, Debug, PartialEq, Eq, Structural)]
pub enum Container {
    /// A `style` element.
    Style,
    /// A fragment, which leaves no trace in the markup.
    Fragment,
}

/// The container for a file extension: a style element for `css` and
/// `scss`, a fragment for `html` and `svg`, none for any other.
pub open spec fn container_for(ext: Seq<char>) -> Option<Container> {
    if ext == "css"@ || ext == "scss"@ {
        Some(Container::Style)
    } else if ext == "html"@ || ext == "svg"@ {
        Some(Container::Fragment)
    } else {
        None
    }
}

impl Container {
    /// The node that the container is.
    pub open spec fn node(self) -> NodeView {
        match self {
            Container::Style => lone(
                KindView::Element { ns: html_ns(), local: "style"@ },
                Seq::empty(),
            ),
            Container::Fragment => lone(KindView::Fragment, Seq::empty()),
        }
    }

    /// Adds the container's node to the store.
    pub fn create(self, doc: &mut Document) -> (id: usize)
        requires
            linked(old(doc)@),
        ensures
            id == old(doc)@.len(),
            final(doc)@ == old(doc)@.push(self.node()),
            linked(final(doc)@),
    {
        match self {
            Container::Style => doc.create_element("style"),
            Container::Fragment => doc.create_fragment(),
        }
    }
}

/// Picks the container for the extension of a fetched resource.
pub fn get_element_from_extension(ext: &str) -> (out: Option<Container>)
    ensures
        out == container_for(ext@),
{
    if same_text(ext, "css") || same_text(ext, "scss") {
        Some(Container::Style)
    } else if same_text(ext, "html") || same_text(ext, "svg") {
        Some(Container::Fragment)
    } else {
        None
    }
}

/// The container choice rests on the extension alone: the two stylesheet
/// extensions give a style element, the two markup extensions a fragment,
/// and every other extension gives none.
pub proof fn law_container_choice(ext: Seq<char>)
    ensures
        ext == "css"@ || ext == "scss"@ ==> container_for(ext) == Some(Container::Style),
        ext == "html"@ || ext == "svg"@ ==> container_for(ext) == Some(Container::Fragment),
        !(ext == "css"@ || ext == "scss"@ || ext == "html"@ || ext == "svg"@) ==> container_for(ext)
            is None,
{
    reveal_strlit("css");
    reveal_strlit("scss");
    reveal_strlit("html");
    reveal_strlit("svg");
    assert("css"@[0] == 'c' && "svg"@[0] == 's' && "html"@[0] == 'h' && "scss"@[0] == 's');
    assert("css"@.len() == 3 && "svg"@.len() == 3 && "html"@.len() == 4 && "scss"@.len() == 4);
}

/// A resource as it came back, from the resolver or over the network.
pub struct FetchResponse {
    /// The bytes of the body.
    pub body: Vec<u8>,
    /// The media type that the response declares.
    pub mime: MediaTypeBuf,
}

/// Whether an insertion could be done, and the name of the refused type
/// where it could not.
pub open spec fn insertion_view(res: Result<(), InsertResponseError>) -> Result<(), Seq<char>> {
    match res {
        Ok(_) => Ok(()),
        Err(e) => Err(e@),
    }
}

/// The store after a response has been put into container `el`, and
/// whether that could be done: a stylesheet becomes one text node; markup
/// is parsed as the content of a `div`, and what was parsed becomes the
/// children of `el`. Any other media type is refused under the name that
/// was declared, and markup that is too long for the parser or whose
/// parsed tree is empty is refused as `text/html`. Bytes that are not UTF-8 count as an empty text. `mime`
/// is the name of the declared type; what it stands for goes by the
/// table, capitals counting as small letters.
pub open spec fn response_inserted(
    nodes: Seq<NodeView>,
    el: usize,
    body: Seq<u8>,
    mime: Seq<char>,
) -> (Seq<NodeView>, Result<(), Seq<char>>) {
    let contents = lenient_text(body);
    let kind = media_type_named(mime);
    if kind == MediaType::Css {
        (
            appended(
                nodes.push(lone(KindView::Text(contents), Seq::empty())),
                el,
                nodes.len() as usize,
            ),
            Ok(()),
        )
    } else if kind == MediaType::Html || kind == MediaType::Svg {
        fragment_lifted(nodes, el, contents)
    } else {
        (nodes, Err(mime))
    }
}

/// The store after `contents` has been parsed as the content of a `div`
/// and what was parsed has become the children of `el`. Markup that is
/// too long for the parser, and markup whose parsed tree is empty, is
/// refused as `text/html`.
pub open spec fn fragment_lifted(nodes: Seq<NodeView>, el: usize, contents: Seq<char>) -> (
    Seq<NodeView>,
    Result<(), Seq<char>>,
) {
    let added = fragment_added(nodes, contents);
    match added.1 {
        None => (nodes, Err(MediaType::Html.essence_of())),
        Some(root) => if added.0[root as int].children.len() == 0 {
            (added.0, Err(MediaType::Html.essence_of()))
        } else {
            (moved_children(added.0, added.0[root as int].children[0], el), Ok(()))
        },
    }
}

/// Parses `contents` as the content of a `div` and makes what was parsed
/// the children of `el`.
pub fn lift_fragment(doc: &mut Document, el: usize, contents: &str) -> (out: Result<
    (),
    InsertResponseError,
>)
    requires
        linked(old(doc)@),
        el < old(doc)@.len(),
    ensures
        linked(final(doc)@),
        final(doc)@.len() >= old(doc)@.len(),
        final(doc)@ == fragment_lifted(old(doc)@, el, contents@).0,
        insertion_view(out) == fragment_lifted(old(doc)@, el, contents@).1,
{
    let root = match doc.parse_fragment(contents) {
        Some(root) => root,
        None => {
            return Err(InsertResponseError(MediaTypeBuf::of(MediaType::Html)));
        },
    };
    if doc.children(root).len() == 0 {
        return Err(InsertResponseError(MediaTypeBuf::of(MediaType::Html)));
    }
    let first = doc.children(root)[0];
    proof {
        assert(crate::html::dom::node_ok(doc@, root as int));
        assert(crate::html::dom::child_ok(doc@, root as int, 0));
    }
    doc.move_children(first, el);
    Ok(())
}

/// Puts a response into the container `el`.
pub fn insert_response(doc: &mut Document, el: usize, resp: FetchResponse) -> (out: Result<
    (),
    InsertResponseError,
>)
    requires
        linked(old(doc)@),
        el < old(doc)@.len(),
    ensures
        linked(final(doc)@),
        final(doc)@.len() >= old(doc)@.len(),
        final(doc)@ == response_inserted(old(doc)@, el, resp.body@, resp.mime@).0,
        insertion_view(out) == response_inserted(old(doc)@, el, resp.body@, resp.mime@).1,
{
    let mime = resp.mime.known();
    let contents = match utf8_text(resp.body) {
        Some(text) => text,
        None => String::new(),
    };
    if mime == MediaType::Css {
        let text = doc.create_text(contents);
        proof {
            crate::html::dom::lemma_appended(doc@, el, text);
        }
        doc.append(el, text);
        Ok(())
    } else if mime == MediaType::Html || mime == MediaType::Svg {
        lift_fragment(doc, el, contents.as_str())
    } else {
        Err(InsertResponseError(resp.mime))
    }
}

/// The fetch transform for one page.
pub struct Mod {
    /// The URI of the page that is being transformed.
    pub page_uri: Uri,
}

/// The selector for the elements that the transform replaces.
pub open spec fn fetch_selector() -> SelectorView {
    SelectorView { name: None, token: Some("fetch"@) }
}

/// What has to be asked for before an element can be replaced.
pub enum FetchJob {
    /// Nothing: the element stays as it is.
    Skip,
    /// Nothing: the transform fails.
    Fail(FetchError),
    /// The resolver has to resolve a URI of this site.
    Internal(Uri, Container),
    /// A URI has to be fetched over the network.
    External(Uri, Container),
}

/// A job over sequences of characters.
pub enum FetchJobView {
    Skip,
    Fail(FetchErrorView),
    Internal(UriView, Container),
    External(UriView, Container),
}

impl View for FetchJob {
    type V = FetchJobView;

    open spec fn view(&self) -> FetchJobView {
        match self {
            FetchJob::Skip => FetchJobView::Skip,
            FetchJob::Fail(e) => FetchJobView::Fail(e@),
            FetchJob::Internal(uri, c) => FetchJobView::Internal(uri@, *c),
            FetchJob::External(uri, c) => FetchJobView::External(uri@, *c),
        }
    }
}

/// The job that a link stands for on a page. A link whose extension picks
/// no container is invalid. A full URI is fetched over the network; a
/// path is resolved against the page and handed to the resolver.
pub open spec fn job_for(href: HrefView, page: UriView) -> FetchJobView {
    let container = match href.extension() {
        Some(ext) => container_for(ext),
        None => None,
    };
    match container {
        None => FetchJobView::Fail(FetchErrorView::InvalidHref(href)),
        Some(c) => match href {
            HrefView::Uri(uri) => FetchJobView::External(uri, c),
            HrefView::Other(_) => FetchJobView::Fail(FetchErrorView::InvalidHref(href)),
            _ => match href.resolved(page) {
                Ok(uri) => FetchJobView::Internal(uri, c),
                Err(e) => FetchJobView::Fail(FetchErrorView::InvalidUriParts(e)),
            },
        },
    }
}

/// Whether a link names nothing that can be inserted: its path has no
/// extension, or one that picks no container.
pub open spec fn unfit(href: HrefView) -> bool {
    match href.extension() {
        Some(ext) => container_for(ext) is None,
        None => true,
    }
}

/// A link that names nothing that can be inserted is refused before
/// anything is asked for: its job is to fail with the link as the invalid
/// one, whatever the page. A link with one of the four extensions is not
/// refused on that ground.
pub proof fn law_unfit_link_is_refused(href: HrefView, page: UriView)
    ensures
        unfit(href) ==> job_for(href, page) == FetchJobView::Fail(
            FetchErrorView::InvalidHref(href),
        ),
        !unfit(href) ==> href.extension() is Some && (href.extension().unwrap() == "css"@
            || href.extension().unwrap() == "scss"@ || href.extension().unwrap() == "html"@
            || href.extension().unwrap() == "svg"@),
{
}

/// The job for a marked element: none where it has no `href` or where the
/// `href` is no link, else the job of the link.
pub open spec fn job_of(node: NodeView, page: UriView) -> FetchJobView {
    match node.attr("href"@) {
        None => FetchJobView::Skip,
        Some(value) => match href_of(value) {
            None => FetchJobView::Skip,
            Some(href) => job_for(href, page),
        },
    }
}

/// The store after element `target` has been replaced by `new`: `new`
/// takes the place behind it and `target` is detached.
pub open spec fn replaced(nodes: Seq<NodeView>, target: usize, new: usize) -> Seq<NodeView> {
    detached(inserted_after(nodes, target, new), target)
}

/// Replacement puts the new node where the old one stood. Where a node
/// with a parent is replaced by a node that has none, that is not the
/// same and not the parent, the parent's children are as before but for
/// the new node in the place of the old one; the new node has the parent
/// that the old one had, the old one has none and is out of the document
/// order under any other node; and no other node has changed.
pub proof fn law_replaced_takes_the_place(
    nodes: Seq<NodeView>,
    target: usize,
    new: usize,
    root: usize,
    fuel: nat,
)
    requires
        linked(nodes),
        target < nodes.len(),
        new < nodes.len(),
        target != new,
        nodes[new as int].parent is None,
        nodes[target as int].parent is Some,
        nodes[target as int].parent != Some(new),
    ensures
        ({
            let p = nodes[target as int].parent.unwrap() as int;
            let at = nodes[p].children.index_of_first(target).unwrap();
            let after = replaced(nodes, target, new);
            &&& 0 <= at < nodes[p].children.len()
            &&& nodes[p].children[at] == target
            &&& after.len() == nodes.len()
            &&& linked(after)
            &&& after[p].children == nodes[p].children.update(at, new)
            &&& after[new as int].parent == Some(p as usize)
            &&& after[target as int].parent is None
            &&& target != root ==> !crate::html::dom::order(after, root, fuel).contains(target)
            &&& forall|m: int|
                0 <= m < nodes.len() && m != p && m != new && m != target ==> after[m] == nodes[m]
        }),
{
    let p = nodes[target as int].parent.unwrap();
    let list = nodes[p as int].children;
    assert(crate::html::dom::node_ok(nodes, target as int));
    assert(crate::html::dom::node_ok(nodes, p as int));
    list.index_of_first_ensures(target);
    let at = list.index_of_first(target).unwrap();
    let free = detached(nodes, new);
    assert(free == nodes);
    assert(!list.contains(new)) by {
        if list.contains(new) {
            crate::html::dom::lemma_listed_by_parent(nodes, p as int, new);
        }
    }
    let grown_list = list.insert(at + 1, new);
    let grown = inserted_after(nodes, target, new);
    crate::html::dom::lemma_inserted_after(nodes, target, new);
    assert(grown[p as int].children == grown_list);
    assert(grown[target as int].parent == Some(p));
    let after = replaced(nodes, target, new);
    crate::html::dom::lemma_detached(grown, target);
    crate::html::dom::lemma_insert_value(list, at + 1, new);
    grown_list.index_of_first_ensures(target);
    assert(grown_list.index_of_first(target) == Some(at)) by {
        assert(grown_list[at] == target);
        assert forall|j: int| 0 <= j < at implies grown_list[j] != target by {
            assert(grown_list[j] == list[j]);
        }
    }
    assert(grown_list.remove_value(target) =~= list.update(at, new));
    assert(after[p as int].children == list.update(at, new));
    if target != root {
        crate::html::dom::law_detached_is_unreachable(grown, target, root, fuel);
    }
}

/// What takes an element's place stands in the page once. Where an
/// element that a path reaches from a node without a parent is replaced
/// by a node that has no parent and does not lie on the path, the
/// document order under the start of the path lists the new node once
/// afterwards, and the old one no more.
pub proof fn law_replacement_stands_once(nodes: Seq<NodeView>, path: Seq<usize>, new: usize)
    requires
        linked(nodes),
        crate::html::walk::chain(nodes, path),
        path.len() >= 2,
        new < nodes.len(),
        nodes[new as int].parent is None,
        !path.contains(new),
    ensures
        ({
            let after = replaced(nodes, path.last(), new);
            let walk = crate::html::dom::order(after, path[0], after.len());
            &&& walk.no_duplicates()
            &&& walk.contains(new)
            &&& !walk.contains(path.last())
        }),
{
    let target = path.last();
    let root = path[0];
    let last = path.len() - 1;
    let p = path[last - 1];
    assert(target == path[last]);
    assert(nodes[path[last] as int].parent == Some(path[last - 1]));
    assert(path.contains(target) && path.contains(p) && path.contains(root));
    let after = replaced(nodes, target, new);
    crate::html::walk::lemma_chain_simple(nodes, path, 0, last);
    law_replaced_takes_the_place(nodes, target, new, root, after.len());
    crate::html::dom::lemma_inserted_after(nodes, target, new);
    crate::html::dom::lemma_detached(inserted_after(nodes, target, new), target);
    crate::html::dom::lemma_detached(nodes, new);
    assert(detached(nodes, new) == nodes);
    let grown = inserted_after(nodes, target, new);
    assert(grown[p as int].parent == nodes[p as int].parent) by {
        assert(crate::html::dom::node_ok(nodes, target as int));
        nodes[p as int].children.index_of_first_ensures(target);
    }
    assert(after[p as int].parent == grown[p as int].parent) by {
        crate::html::walk::lemma_chain_simple(nodes, path, last - 1, last);
        assert(after == detached(grown, target));
        assert(detached(grown, target)[p as int].parent == grown[p as int].parent);
    }

    let next = path.drop_last().push(new);
    assert forall|i: int| 0 <= i < last implies (#[trigger] after[next[i] as int]).parent
        == nodes[path[i] as int].parent && next[i] == path[i] by {
        assert(next[i] == path[i]);
        assert(path.contains(path[i]));
        crate::html::walk::lemma_chain_simple(nodes, path, i, last);
    }
    assert(next[last] == new);
    assert(crate::html::walk::chain(after, next)) by {
        assert forall|i: int| 1 <= i < next.len() implies (#[trigger] after[next[i] as int]).parent
            == Some(next[i - 1]) by {
            if i < last {
                assert(nodes[path[i] as int].parent == Some(path[i - 1]));
            }
        }
    }
    crate::html::walk::lemma_chain_short(after, next);
    assert(next.last() == new);
    crate::html::walk::lemma_path_is_walked(after, next, after.len());
    let top = seq![root];
    assert(crate::html::walk::chain(after, top));
    assert(top.last() == root);
    crate::html::walk::lemma_order_distinct(after, top, after.len());
}

/// The store after a response has been put into a new container, and
/// whether that could be done. The container is the node added first.
pub open spec fn fetched(
    nodes: Seq<NodeView>,
    container: Container,
    body: Seq<u8>,
    mime: Seq<char>,
) -> (Seq<NodeView>, Result<(), Seq<char>>) {
    response_inserted(nodes.push(container.node()), nodes.len() as usize, body, mime)
}

/// The response that a reply from the network stands for: its media type
/// is the one that its content type declares, and octet stream where the
/// content type is not well formed.
pub fn remote_response(content_type: &str, body: Vec<u8>) -> (out: FetchResponse)
    ensures
        out.body@ == body@,
        out.mime@ == declared_type(content_type@),
{
    FetchResponse { body, mime: MediaTypeBuf::declared(content_type) }
}

/// Replaces `target` by `new`.
pub fn replace(doc: &mut Document, target: usize, new: usize)
    requires
        linked(old(doc)@),
        target < old(doc)@.len(),
        new < old(doc)@.len(),
    ensures
        final(doc)@ == replaced(old(doc)@, target, new),
        final(doc)@.len() == old(doc)@.len(),
        linked(final(doc)@),
{
    proof {
        crate::html::dom::lemma_inserted_after(doc@, target, new);
    }
    doc.insert_after(target, new);
    proof {
        crate::html::dom::lemma_detached(doc@, target);
    }
    doc.detach(target);
}

impl Mod {
    /// The transform for the page of the given URI.
    pub fn new(page_uri: Uri) -> (out: Mod)
        ensures
            out.page_uri@ == page_uri@,
    {
        Mod { page_uri }
    }

    /// The elements under `root` that the transform replaces, in document
    /// order.
    pub fn targets(&self, doc: &Document, root: usize) -> (out: Vec<usize>)
        requires
            linked(doc@),
            root < doc@.len(),
        ensures
            out@ == selected(doc@, root, fetch_selector()),
            forall|i: int| 0 <= i < out@.len() ==> #[trigger] out@[i] < doc@.len(),
    {
        let sel = Selector { name: None, token: Some("fetch".to_owned()) };
        doc.select(root, &sel)
    }

    /// Begins the fetch of a link: says what has to be asked for before
    /// the link can be inserted. A link whose path has no extension, or
    /// one other than `css`, `scss`, `html` and `svg`, is refused as
    /// invalid, and so nothing is asked for on its account.
    pub fn perform_fetch(&self, href: Href) -> (out: FetchJob)
        ensures
            out@ == job_for(href@, self.page_uri@),
            unfit(href@) ==> out@ == FetchJobView::Fail(FetchErrorView::InvalidHref(href@)),
            out@ is Internal || out@ is External ==> !unfit(href@),
    {
        let container = match href.extension() {
            Some(ext) => get_element_from_extension(ext.as_str()),
            None => None,
        };
        match container {
            None => FetchJob::Fail(FetchError::InvalidHref(href)),
            Some(c) => match href {
                Href::Uri(uri) => FetchJob::External(uri, c),
                Href::Other(text) => FetchJob::Fail(FetchError::InvalidHref(Href::Other(text))),
                Href::Absolute(path) => match Href::Absolute(path).append_to_uri(&self.page_uri) {
                    Ok(uri) => FetchJob::Internal(uri, c),
                    Err(e) => FetchJob::Fail(FetchError::InvalidUriParts(e)),
                },
                Href::Relative(path) => match Href::Relative(path).append_to_uri(&self.page_uri) {
                    Ok(uri) => FetchJob::Internal(uri, c),
                    Err(e) => FetchJob::Fail(FetchError::InvalidUriParts(e)),
                },
            },
        }
    }

    /// What has to be asked for before the marked element `target` can be
    /// replaced.
    pub fn plan(&self, doc: &Document, target: usize) -> (out: FetchJob)
        requires
            target < doc@.len(),
        ensures
            out@ == job_of(doc@[target as int], self.page_uri@),
    {
        match doc.node(target).get_attr("href") {
            None => FetchJob::Skip,
            Some(value) => match Href::try_from(value.as_str()) {
                Err(_) => FetchJob::Skip,
                Ok(href) => self.perform_fetch(href),
            },
        }
    }

    /// Ends the fetch of a link: puts the response into a new container
    /// and returns the container.
    pub fn insert_fetched(&self, doc: &mut Document, container: Container, resp: FetchResponse) -> (out:
        Result<usize, FetchError>)
        requires
            linked(old(doc)@),
        ensures
            linked(final(doc)@),
            final(doc)@.len() > old(doc)@.len(),
            final(doc)@ == fetched(old(doc)@, container, resp.body@, resp.mime@).0,
            match out {
                Ok(el) => el == old(doc)@.len() && fetched(
                    old(doc)@,
                    container,
                    resp.body@,
                    resp.mime@,
                ).1 is Ok,
                Err(e) => match fetched(old(doc)@, container, resp.body@, resp.mime@).1 {
                    Err(cause) => e@ == FetchErrorView::Insertion(cause),
                    Ok(_) => false,
                },
            },
    {
        let el = container.create(doc);
        match insert_response(doc, el, resp) {
            Ok(_) => Ok(el),
            Err(e) => Err(FetchError::Insertion(e)),
        }
    }
}

} // verus!
