//! The css transform: every `style` element of a page is taken out, and
//! their text comes back minified in one `style` element.

use vstd::prelude::*;
use vstd::utf8::encode_utf8;
use crate::html::dom::{
    appended, detached, html_ns, lemma_pushed_linked, linked, lone, selected, text_contents_of,
    Document, KindView, NodeView, Selector, SelectorView,
};
use crate::text::{chars_of, extend, string_of};

verus! {

/// The css transform. It has no settings.
#[derive(Clone, Copy, Debug, Default)]
pub struct Mod;

/// Why a stylesheet could not be minified.
#[derive(Debug)]
pub enum MinifyCssError {
    /// The text is no stylesheet.
    Parse(String),
    /// The stylesheet could not be minified.
    Minify(String),
    /// The minified stylesheet could not be written.
    Print(String),
}

/// A minify error over sequences of characters.
pub enum MinifyCssErrorView {
    Parse(Seq<char>),
    Minify(Seq<char>),
    Print(Seq<char>),
}

impl View for MinifyCssError {
    type V = MinifyCssErrorView;

    open spec fn view(&self) -> MinifyCssErrorView {
        match self {
            MinifyCssError::Parse(m) => MinifyCssErrorView::Parse(m@),
            MinifyCssError::Minify(m) => MinifyCssErrorView::Minify(m@),
            MinifyCssError::Print(m) => MinifyCssErrorView::Print(m@),
        }
    }
}

impl MinifyCssError {
    /// The message of the error.
    pub fn message(&self) -> (out: String)
        ensures
            out@ == match self@ {
                MinifyCssErrorView::Parse(m) => m,
                MinifyCssErrorView::Minify(m) => m,
                MinifyCssErrorView::Print(m) => m,
            },
    {
        match self {
            MinifyCssError::Parse(m) => m.clone(),
            MinifyCssError::Minify(m) => m.clone(),
            MinifyCssError::Print(m) => m.clone(),
        }
    }
}

/// What `lightningcss` makes of a stylesheet text when it parses it with
/// default options, minifies it with default options and prints it in
/// minified form: the printed text, or the stage that failed with the
/// error's message.
pub uninterp spec fn minified_css(css: Seq<char>) -> Result<Seq<char>, MinifyCssErrorView>;

/// The longest stylesheet text, in bytes, that is handed to the
/// minifier. The minifier counts the lines and columns of what it reads
/// and of what it writes in 32 bits, and what it writes is taken to stay
/// under sixteen times what it read.
pub const MINIFY_LIMIT: usize = 0x1000_0000;

/// Whether a stylesheet text is short enough for the minifier: its UTF-8
/// form has no more bytes than the limit.
pub open spec fn fits_minifier(css: Seq<char>) -> bool {
    encode_utf8(css).len() <= MINIFY_LIMIT
}

/// `StyleSheet::parse`, `StyleSheet::minify` and `StyleSheet::to_css` of
/// `lightningcss`, one after the other, on a text that is short enough,
/// the printer set to minify. The first stage that fails gives the
/// error, with the message that `lightningcss` prints for it.
#[verifier::external_body]
pub(crate) fn minify_css(css: &str) -> (out: Result<String, MinifyCssError>)
    requires
        fits_minifier(css@),
    ensures
        match out {
            Ok(code) => minified_css(css@) == Ok::<Seq<char>, MinifyCssErrorView>(code@),
            Err(e) => minified_css(css@) == Err::<Seq<char>, MinifyCssErrorView>(e@),
        },
{
    let mut sheet = lightningcss::stylesheet::StyleSheet::parse(css, Default::default())
        .map_err(|e| MinifyCssError::Parse(e.to_string()))?;
    sheet.minify(Default::default()).map_err(|e| MinifyCssError::Minify(e.to_string()))?;
    let options = lightningcss::printer::PrinterOptions { minify: true, ..Default::default() };
    let printed = sheet.to_css(options).map_err(|e| MinifyCssError::Print(e.to_string()))?;
    Ok(printed.code)
}

/// What comes of minifying a stylesheet text: what the minifier makes of
/// it. Two texts are not handed to the minifier: the empty text, which
/// is its own minified form, and a text that is too long for the
/// minifier, which counts as one that could not be minified.
pub open spec fn minified(css: Seq<char>) -> Result<Seq<char>, MinifyCssErrorView> {
    if css.len() == 0 {
        Ok(Seq::empty())
    } else if fits_minifier(css) {
        minified_css(css)
    } else {
        Err(MinifyCssErrorView::Minify("The stylesheet is too long to be minified"@))
    }
}

/// Minifies a stylesheet text.
pub fn minify(css: &str) -> (out: Result<String, MinifyCssError>)
    ensures
        match out {
            Ok(code) => minified(css@) == Ok::<Seq<char>, MinifyCssErrorView>(code@),
            Err(e) => minified(css@) == Err::<Seq<char>, MinifyCssErrorView>(e@),
        },
{
    if css.is_empty() {
        return Ok(String::new());
    }
    if css.as_bytes().len() > MINIFY_LIMIT {
        return Err(MinifyCssError::Minify("The stylesheet is too long to be minified".to_owned()));
    }
    minify_css(css)
}

/// The selector for `style` elements.
pub open spec fn style_selector() -> SelectorView {
    SelectorView { name: Some("style"@), token: None }
}

/// The selector for `head` elements.
pub open spec fn head_selector() -> SelectorView {
    SelectorView { name: Some("head"@), token: None }
}

/// The store and the text gathered after the first `k` nodes of `styles`
/// have been swept: the text below each is added to what was gathered,
/// and the node is detached.
pub open spec fn swept(nodes: Seq<NodeView>, styles: Seq<usize>, k: nat) -> (Seq<NodeView>, Seq<char>)
    decreases k,
{
    if k == 0 || k > styles.len() {
        (nodes, Seq::empty())
    } else {
        let before = swept(nodes, styles, (k - 1) as nat);
        (detached(before.0, styles[k - 1]), before.1 + text_contents_of(before.0, styles[k - 1]))
    }
}

/// The store after `css` has been put back into it: as the text of a new
/// `style` element, which becomes the last child of the first `head`
/// element under `root`, or of `root` itself where there is none.
pub open spec fn restyled(nodes: Seq<NodeView>, root: usize, css: Seq<char>) -> Seq<NodeView> {
    let heads = selected(nodes, root, head_selector());
    let target = if heads.len() > 0 {
        heads[0]
    } else {
        root
    };
    let style = nodes.len() as usize;
    let text = (nodes.len() + 1) as usize;
    let made = nodes.push(
        lone(KindView::Element { ns: html_ns(), local: "style"@ }, Seq::empty()),
    ).push(lone(KindView::Text(css), Seq::empty()));
    appended(appended(made, style, text), target, style)
}

/// The page under `root` after the css transform: all `style` elements
/// are swept in document order and the minified text of all of them is
/// put back. Where the text cannot be minified the page stays swept.
pub open spec fn bundled(nodes: Seq<NodeView>, root: usize) -> (
    Seq<NodeView>,
    Result<(), MinifyCssErrorView>,
) {
    let styles = selected(nodes, root, style_selector());
    let done = swept(nodes, styles, styles.len());
    match minified(done.1) {
        Ok(css) => (restyled(done.0, root, css), Ok(())),
        Err(e) => (done.0, Err(e)),
    }
}

/// Sweeping leaves every swept element without a parent, and the links
/// of the store in agreement. Every node is what it was, and has the
/// parent that it had or none.
pub proof fn lemma_swept(nodes: Seq<NodeView>, styles: Seq<usize>, k: nat)
    requires
        linked(nodes),
        k <= styles.len(),
        forall|i: int| 0 <= i < styles.len() ==> #[trigger] styles[i] < nodes.len(),
    ensures
        linked(swept(nodes, styles, k).0),
        swept(nodes, styles, k).0.len() == nodes.len(),
        forall|i: int|
            0 <= i < k ==> (#[trigger] swept(nodes, styles, k).0[styles[i] as int]).parent is None,
        forall|m: int|
            0 <= m < nodes.len() ==> {
                let now = #[trigger] swept(nodes, styles, k).0[m];
                now.kind == nodes[m].kind && now.attrs == nodes[m].attrs && (now.parent is None
                    || now.parent == nodes[m].parent)
            },
    decreases k,
{
    if k > 0 {
        lemma_swept(nodes, styles, (k - 1) as nat);
        let before = swept(nodes, styles, (k - 1) as nat);
        crate::html::dom::lemma_detached(before.0, styles[k - 1]);
        let after = swept(nodes, styles, k).0;
        assert forall|m: int| 0 <= m < nodes.len() implies {
            let now = #[trigger] after[m];
            now.kind == nodes[m].kind && now.attrs == nodes[m].attrs && (now.parent is None
                || now.parent == nodes[m].parent)
        } by {
            assert(after[m].kind == before.0[m].kind);
        }
        assert forall|i: int| 0 <= i < k implies (#[trigger] after[styles[i] as int]).parent
            is None by {
            if i < k - 1 && styles[i] != styles[k - 1] {
                assert(before.0[styles[i] as int].parent is None);
            }
        }
    }
}

/// After the css transform no `style` element of the page is where it
/// was: each one that the transform found is without a parent and, unless
/// it is the root itself, out of the document order of the page, whether
/// the minifier took the gathered text or not. The text handed to the
/// minifier is that of the elements in document order, as `swept` says.
/// The store is taken to have room for the two nodes that the transform
/// adds.
pub proof fn law_styles_leave_their_places(nodes: Seq<NodeView>, root: usize, i: int, fuel: nat)
    requires
        linked(nodes),
        nodes.len() + 2 <= usize::MAX,
        root < nodes.len(),
        0 <= i < selected(nodes, root, style_selector()).len(),
    ensures
        bundled(nodes, root).0[selected(nodes, root, style_selector())[i] as int].parent is None,
        selected(nodes, root, style_selector())[i] != root ==> !crate::html::dom::order(
            bundled(nodes, root).0,
            root,
            fuel,
        ).contains(selected(nodes, root, style_selector())[i]),
{
    let styles = selected(nodes, root, style_selector());
    let s = styles[i];
    crate::html::dom::lemma_picked(
        nodes,
        crate::html::dom::order(nodes, root, nodes.len()),
        style_selector(),
    );
    lemma_swept(nodes, styles, styles.len());
    let done = swept(nodes, styles, styles.len());
    match minified(done.1) {
        Err(_) => {
            if s != root {
                crate::html::dom::lemma_parentless_is_unreachable(done.0, s, root, fuel);
            }
        },
        Ok(css) => {
            let heads = selected(done.0, root, head_selector());
            crate::html::dom::lemma_picked(
                done.0,
                crate::html::dom::order(done.0, root, done.0.len()),
                head_selector(),
            );
            let target = if heads.len() > 0 {
                heads[0]
            } else {
                root
            };
            let style = done.0.len() as usize;
            let text = (done.0.len() + 1) as usize;
            let one = done.0.push(
                lone(KindView::Element { ns: html_ns(), local: "style"@ }, Seq::empty()),
            );
            let made = one.push(lone(KindView::Text(css), Seq::empty()));
            lemma_pushed_linked(
                done.0,
                lone(KindView::Element { ns: html_ns(), local: "style"@ }, Seq::empty()),
            );
            lemma_pushed_linked(one, lone(KindView::Text(css), Seq::empty()));
            crate::html::dom::lemma_appended(made, style, text);
            let inner = appended(made, style, text);
            crate::html::dom::lemma_appended(inner, target, style);
            assert(made[s as int] == done.0[s as int]);
            assert(inner[s as int].parent == made[s as int].parent);
            if s != root {
                crate::html::dom::lemma_parentless_is_unreachable(
                    bundled(nodes, root).0,
                    s,
                    root,
                    fuel,
                );
            }
        },
    }
}

/// A path that ends at an old node of a store that has grown runs
/// through old nodes only, where the old nodes have kept their parents.
pub proof fn lemma_path_stays_old(
    old: Seq<NodeView>,
    new: Seq<NodeView>,
    path: Seq<usize>,
    j: int,
)
    requires
        linked(old),
        old.len() <= new.len(),
        forall|m: int| 0 <= m < old.len() ==> (#[trigger] new[m]).parent == old[m].parent,
        crate::html::walk::descends(new, path),
        0 <= j < path.len(),
        path[j] < old.len(),
    ensures
        forall|i: int| 0 <= i <= j ==> #[trigger] path[i] < old.len(),
    decreases j,
{
    if j > 0 {
        assert(new[path[j] as int].parent == Some(path[j - 1]));
        assert(crate::html::dom::node_ok(old, path[j] as int));
        lemma_path_stays_old(old, new, path, j - 1);
    }
}

/// Putting the minified text back adds nothing that a selector with a
/// word picks: where such a selector picks nothing under a root without
/// a parent, it picks nothing there after a new `style` element has been
/// added.
pub proof fn lemma_restyled_picks_nothing_new(
    nodes: Seq<NodeView>,
    root: usize,
    css: Seq<char>,
    sel: SelectorView,
)
    requires
        linked(nodes),
        nodes.len() + 2 <= usize::MAX,
        root < nodes.len(),
        nodes[root as int].parent is None,
        sel.token is Some,
        selected(nodes, root, sel).len() == 0,
    ensures
        selected(restyled(nodes, root, css), root, sel).len() == 0,
{
    let heads = selected(nodes, root, head_selector());
    crate::html::dom::lemma_picked(
        nodes,
        crate::html::dom::order(nodes, root, nodes.len()),
        head_selector(),
    );
    let target = if heads.len() > 0 {
        heads[0]
    } else {
        root
    };
    let style = nodes.len() as usize;
    let text = (nodes.len() + 1) as usize;
    let one = nodes.push(lone(KindView::Element { ns: html_ns(), local: "style"@ }, Seq::empty()));
    let made = one.push(lone(KindView::Text(css), Seq::empty()));
    lemma_pushed_linked(
        nodes,
        lone(KindView::Element { ns: html_ns(), local: "style"@ }, Seq::empty()),
    );
    lemma_pushed_linked(one, lone(KindView::Text(css), Seq::empty()));
    crate::html::dom::lemma_appended(made, style, text);
    let inner = appended(made, style, text);
    crate::html::dom::lemma_appended(inner, target, style);
    let after = restyled(nodes, root, css);
    assert(after == appended(inner, target, style));
    assert forall|m: int| 0 <= m < nodes.len() implies (#[trigger] after[m]).parent
        == nodes[m].parent && after[m].kind == nodes[m].kind && after[m].attrs
        == nodes[m].attrs by {
        assert(made[m] == nodes[m]);
        assert(inner[m].parent == made[m].parent);
    }
    let walk = crate::html::dom::order(after, root, after.len());
    let start = seq![root];
    assert(crate::html::walk::descends(after, start));
    assert(start.last() == root);
    assert forall|i: int| 0 <= i < walk.len() implies !((#[trigger] walk[i]) < after.len()
        && crate::html::dom::selects(sel, after[walk[i] as int])) by {
        let id = walk[i];
        if id < after.len() && crate::html::dom::selects(sel, after[id as int]) {
            if id == style {
                assert(after[id as int].attrs == made[id as int].attrs);
                assert(made[id as int].attrs.len() == 0);
            } else if id == text {
                assert(after[id as int].kind == made[id as int].kind);
            } else {
                let path = crate::html::walk::lemma_walked_has_path(after, start, after.len(), id);
                assert(path[0] == path.take(1)[0]);
                assert(path[0] == root);
                lemma_path_stays_old(nodes, after, path, path.len() - 1);
                assert(crate::html::walk::descends(nodes, path)) by {
                    assert forall|k: int| 1 <= k < path.len() implies (
                    #[trigger] nodes[path[k] as int]).parent == Some(path[k - 1]) by {
                        assert(after[path[k] as int].parent == Some(path[k - 1]));
                    }
                }
                assert(crate::html::walk::chain(nodes, path));
                crate::html::walk::lemma_chain_short(nodes, path);
                crate::html::walk::lemma_path_is_walked(nodes, path, nodes.len());
                let before = crate::html::dom::order(nodes, root, nodes.len());
                let at = choose|at: int| 0 <= at < before.len() && before[at] == id;
                crate::html::walk::lemma_member_picked(nodes, before, sel, at);
                assert(selected(nodes, root, sel).contains(id));
            }
        }
    }
    crate::html::walk::lemma_none_picked(after, walk, sel);
}

/// One stylesheet afterwards. Where the css transform succeeds on a page
/// whose root has no parent and is no `style` element, the page holds
/// exactly one `style` element afterwards: the new one, which is the
/// last child of the first `head`, or of the root where there is none.
/// The store is taken to have room for the two nodes that the transform
/// adds.
pub proof fn law_one_style_afterwards(nodes: Seq<NodeView>, root: usize)
    requires
        linked(nodes),
        nodes.len() + 2 <= usize::MAX,
        root < nodes.len(),
        nodes[root as int].parent is None,
        !crate::html::dom::selects(style_selector(), nodes[root as int]),
        bundled(nodes, root).1 is Ok,
    ensures
        ({
            let after = bundled(nodes, root).0;
            let styles = selected(nodes, root, style_selector());
            let swept_store = swept(nodes, styles, styles.len()).0;
            let heads = selected(swept_store, root, head_selector());
            let target = if heads.len() > 0 {
                heads[0]
            } else {
                root
            };
            let new = nodes.len() as usize;
            &&& selected(after, root, style_selector()) == seq![new]
            &&& after[new as int].kind == (KindView::Element { ns: html_ns(), local: "style"@ })
            &&& after[new as int].parent == Some(target)
            &&& after[target as int].children.len() > 0
            &&& after[target as int].children.last() == new
        }),
{
    let sel = style_selector();
    let styles = selected(nodes, root, sel);
    let before = crate::html::dom::order(nodes, root, nodes.len());
    crate::html::dom::lemma_picked(nodes, before, sel);
    lemma_swept(nodes, styles, styles.len());
    let done = swept(nodes, styles, styles.len());
    let css = minified(done.1)->Ok_0;
    let old = done.0;
    let heads = selected(old, root, head_selector());
    crate::html::dom::lemma_picked(
        old,
        crate::html::dom::order(old, root, old.len()),
        head_selector(),
    );
    let target = if heads.len() > 0 {
        heads[0]
    } else {
        root
    };
    let new = old.len() as usize;
    let text = (old.len() + 1) as usize;
    let one = old.push(lone(KindView::Element { ns: html_ns(), local: "style"@ }, Seq::empty()));
    let made = one.push(lone(KindView::Text(css), Seq::empty()));
    lemma_pushed_linked(
        old,
        lone(KindView::Element { ns: html_ns(), local: "style"@ }, Seq::empty()),
    );
    lemma_pushed_linked(one, lone(KindView::Text(css), Seq::empty()));
    crate::html::dom::lemma_appended(made, new, text);
    let inner = appended(made, new, text);
    crate::html::dom::lemma_appended(inner, target, new);
    crate::html::dom::law_appended_is_last(inner, target, new);
    let after = bundled(nodes, root).0;
    assert(after == appended(inner, target, new));
    assert forall|m: int| 0 <= m < old.len() implies (#[trigger] after[m]).parent == old[m].parent
        && after[m].kind == old[m].kind && after[m].attrs == old[m].attrs by {
        assert(made[m] == old[m]);
        assert(inner[m].parent == made[m].parent);
    }
    assert(after[new as int].kind == made[new as int].kind);
    assert(after[new as int].attrs == made[new as int].attrs);
    assert(after[text as int].kind == made[text as int].kind);
    let walk = crate::html::dom::order(after, root, after.len());
    let start = seq![root];
    assert(start.last() == root);
    assert(crate::html::walk::chain(after, start));
    assert(crate::html::walk::descends(after, start));
    let found = selected(after, root, sel);
    crate::html::dom::lemma_picked(after, walk, sel);
    // Whatever is selected afterwards is the new element.
    assert forall|i: int| 0 <= i < found.len() implies #[trigger] found[i] == new by {
        let id = found[i];
        if id != new {
            assert(id != text);
            let path = crate::html::walk::lemma_walked_has_path(after, start, after.len(), id);
            assert(path[0] == path.take(1)[0]);
            assert(path[0] == root);
            lemma_path_stays_old(old, after, path, path.len() - 1);
            assert forall|k: int| 1 <= k < path.len() implies (
            #[trigger] nodes[path[k] as int]).parent == Some(path[k - 1]) by {
                assert(after[path[k] as int].parent == Some(path[k - 1]));
                assert(old[path[k] as int].parent == Some(path[k - 1]));
            }
            assert(crate::html::walk::chain(nodes, path));
            crate::html::walk::lemma_chain_short(nodes, path);
            crate::html::walk::lemma_path_is_walked(nodes, path, nodes.len());
            let at = choose|at: int| 0 <= at < before.len() && before[at] == id;
            assert(old[id as int].kind == nodes[id as int].kind);
            crate::html::walk::lemma_member_picked(nodes, before, sel, at);
            let k = choose|k: int| 0 <= k < styles.len() && styles[k] == id;
            assert(old[styles[k] as int].parent is None);
            assert(id != root);
            assert(path.len() >= 2) by {
                if path.len() == 1 {
                    assert(path.last() == path[0]);
                }
            }
            assert(after[path[path.len() - 1] as int].parent == Some(path[path.len() - 2]));
            assert(path[path.len() - 1] == id);
        }
    }
    // The new element is selected.
    assert(found.contains(new)) by {
        let way = crate::html::dom::order(old, root, old.len());
        let first = seq![root];
        assert(crate::html::walk::descends(old, first));
        assert(first.last() == root);
        assert(way.contains(target)) by {
            if heads.len() > 0 {
            } else {
                assert(way[0] == root);
            }
        }
        let path = crate::html::walk::lemma_walked_has_path(old, first, old.len(), target);
        assert(path[0] == path.take(1)[0]);
        let longer = path.push(new);
        assert forall|k: int| 1 <= k < longer.len() implies (
        #[trigger] after[longer[k] as int]).parent == Some(longer[k - 1]) by {
            if k < path.len() {
                assert(longer[k] == path[k] && longer[k - 1] == path[k - 1]);
                assert(old[path[k] as int].parent == Some(path[k - 1]));
            } else {
                assert(longer[k - 1] == path[path.len() - 1]);
            }
        }
        assert forall|k: int| 0 <= k < longer.len() implies #[trigger] longer[k] < after.len() by {
            if k < path.len() {
                assert(longer[k] == path[k]);
            }
        }
        assert(longer[0] == root);
        assert(crate::html::walk::chain(after, longer));
        crate::html::walk::lemma_chain_short(after, longer);
        crate::html::walk::lemma_path_is_walked(after, longer, after.len());
        assert(longer.last() == new);
        let at = choose|at: int| 0 <= at < walk.len() && walk[at] == new;
        assert(after[new as int].attrs.len() == 0);
        crate::html::walk::lemma_member_picked(after, walk, sel, at);
    }
    // And nothing is selected twice.
    crate::html::walk::lemma_order_distinct(after, start, after.len());
    crate::html::walk::lemma_picked_distinct(after, walk, sel);
    assert(found.len() == 1) by {
        if found.len() >= 2 {
            assert(found[0] == new && found[1] == new);
        }
        if found.len() == 0 {
            let k = choose|k: int| 0 <= k < found.len() && found[k] == new;
        }
    }
    assert(found =~= seq![new]);
}

impl Mod {
    /// Applies the transform to the page under `root`.
    pub fn modify(&self, doc: &mut Document, root: usize) -> (out: Result<(), MinifyCssError>)
        requires
            linked(old(doc)@),
            root < old(doc)@.len(),
        ensures
            linked(final(doc)@),
            final(doc)@.len() >= old(doc)@.len(),
            final(doc)@ == bundled(old(doc)@, root).0,
            match out {
                Ok(_) => bundled(old(doc)@, root).1 == Ok::<(), MinifyCssErrorView>(()),
                Err(e) => bundled(old(doc)@, root).1 == Err::<(), MinifyCssErrorView>(e@),
            },
    {
        let style = Selector { name: Some("style".to_owned()), token: None };
        let styles = doc.select(root, &style);
        let mut combined: Vec<char> = Vec::new();
        let mut i: usize = 0;
        while i < styles.len()
            invariant
                i <= styles.len(),
                linked(doc@),
                doc@.len() == old(doc)@.len(),
                forall|j: int| 0 <= j < styles@.len() ==> #[trigger] styles@[j] < doc@.len(),
                (doc@, combined@) == swept(old(doc)@, styles@, i as nat),
            decreases styles.len() - i,
        {
            let text = doc.text_contents(styles[i]);
            extend(&mut combined, &chars_of(text.as_str()));
            proof {
                crate::html::dom::lemma_detached(doc@, styles@[i as int]);
            }
            doc.detach(styles[i]);
            i += 1;
        }
        let css = match minify(string_of(&combined).as_str()) {
            Ok(css) => css,
            Err(e) => {
                return Err(e);
            },
        };
        let head = Selector { name: Some("head".to_owned()), token: None };
        let heads = doc.select(root, &head);
        let target = if heads.len() > 0 {
            heads[0]
        } else {
            root
        };
        let node = doc.create_element("style");
        let text = doc.create_text(css);
        proof {
            crate::html::dom::lemma_appended(doc@, node, text);
        }
        doc.append(node, text);
        proof {
            crate::html::dom::lemma_appended(doc@, target, node);
        }
        doc.append(target, node);
        Ok(())
    }
}

} // verus!
