//! What holds of every session.

use vstd::prelude::*;
use crate::error::{ComponentModErrorView, ErrorView};
use crate::html::attr::UriView;
use crate::html::listing::{grafted, listing};
use crate::html::markup::{html_document, markup};
use crate::html::mods::component::{component_job_of, components, props_read, ComponentJobView};
use crate::html::mods::css::bundled;
use crate::html::mods::fetch::{fetch_selector, job_of, FetchJobView};
use crate::html::mods::{pipeline, ModKind};
use crate::mediatype::{media_type_of_path, MediaType};
use crate::source::model::{
    awaits, coherent, fresh, gives, index_path, is_scss, kind_of, page_begun, page_gives,
    plain_path, rehomed, routing, stacked, takes, waits_for, FrameView, PageView, PhaseView,
    ReplyView, RequestView, ResolvedView, SessionView, StepView, ValueKind, ValueView,
};

verus! {

/// A session asks only for what it then waits for: after a step that
/// ends with a request, the session waits for the answer to that very
/// request.
pub proof fn law_asks_what_it_awaits(s: SessionView, reply: ReplyView)
    ensures
        match s.proceeded().1 {
            StepView::Ask(request) => awaits(s.proceeded().0, request),
            _ => true,
        },
        match s.resumed(reply).1 {
            StepView::Ask(request) => awaits(s.resumed(reply).0, request),
            _ => true,
        },
{
    if s.stack.len() > 0 {
        match s.stack.last() {
            FrameView::Page { at, phase } => {
                let rest = s.rest();
                match phase {
                    PhaseView::Fetch { targets, next } => {
                        if next < targets.len() {
                            match job_of(rest.nodes[targets[next as int] as int], at.uri) {
                                FetchJobView::Internal(uri, container) => {
                                    let r = rest.fetch_next(at, targets, next).0;
                                    assert(r.stack.last() == routing(rest.root, uri));
                                },
                                FetchJobView::External(uri, container) => {
                                    let r = rest.fetch_next(at, targets, next).0;
                                    assert(r.stack.last() == FrameView::Page {
                                        at,
                                        phase: PhaseView::Fetching {
                                            targets,
                                            next,
                                            container,
                                            internal: false,
                                        },
                                    });
                                },
                                _ => {},
                            }
                        }
                    },
                    PhaseView::Component { targets, next } => {
                        if next < targets.len() {
                            let target = targets[next as int];
                            let props = props_read(rest.nodes, target);
                            let slot = rest.nodes.len() as usize;
                            match component_job_of(rest.nodes[target as int], at.uri) {
                                ComponentJobView::Internal(uri) => {
                                    let r = rest.component_next(at, targets, next).0;
                                    assert(r.stack.last() == routing(rest.root, uri));
                                },
                                ComponentJobView::External(uri) => {
                                    let r = rest.component_next(at, targets, next).0;
                                    assert(r.stack.last() == FrameView::Page {
                                        at,
                                        phase: PhaseView::Loading {
                                            targets,
                                            next,
                                            props,
                                            slot,
                                            internal: false,
                                        },
                                    });
                                },
                                _ => {},
                            }
                        }
                    },
                    _ => {},
                }
            },
            FrameView::Routing { uri, plain, index } => {
                match reply {
                    ReplyView::Exists(found) => {
                        let path = if found {
                            index
                        } else {
                            plain
                        };
                        let r = s.rest().pushed(FrameView::Reading { uri, path });
                        assert(r.stack.last() == FrameView::Reading { uri, path });
                    },
                    _ => {},
                }
            },
            _ => {},
        }
    }
}

/// Directory routing. A resolution that hears that the index page of
/// the directory exists asks for that page; one that hears that it does
/// not asks for the file that the URI names.
pub proof fn law_directory_routing(
    start: SessionView,
    uri: UriView,
    found: bool,
)
    requires
        start.carry is None,
    ensures
        start.pushed(routing(start.root, uri)).resumed(ReplyView::Exists(found)) == (
            start.pushed(
                FrameView::Reading {
                    uri,
                    path: if found {
                        index_path(start.root, uri.path)
                    } else {
                        plain_path(start.root, uri.path)
                    },
                },
            ),
            StepView::Ask(
                RequestView::Read(
                    if found {
                        index_path(start.root, uri.path)
                    } else {
                        plain_path(start.root, uri.path)
                    },
                ),
            ),
        ),
{
    let s = start.pushed(routing(start.root, uri));
    assert(s.stack.last() == routing(start.root, uri));
    assert(s.rest().stack =~= start.stack);
    assert(s.rest() == start);
}

/// The index page of a directory is a page: whatever the root and the
/// URI, its media type is HTML.
pub proof fn law_index_is_a_page(root: Seq<char>, path: Seq<char>)
    ensures
        media_type_of_path(index_path(root, path)) == Some(MediaType::Html),
{
    crate::path::lemma_index_extension(plain_path(root, path));
    reveal_strlit("html");
}

/// Leniency for a missing link. A marked element without an `href`
/// attribute, or with one that is no link, is passed over: the fetch
/// transform goes on to the next element and the store stays as it is.
pub proof fn law_missing_href_is_kept(s: SessionView, at: PageView, targets: Seq<usize>, next: usize)
    requires
        next < targets.len(),
        match s.nodes[targets[next as int] as int].attr("href"@) {
            None => true,
            Some(value) => crate::html::attr::href_of(value) is None,
        },
    ensures
        s.fetch_next(at, targets, next) == (
            s.pushed(
                FrameView::Page {
                    at,
                    phase: PhaseView::Fetch { targets, next: (next + 1) as usize },
                },
            ),
            StepView::More,
        ),
        s.fetch_next(at, targets, next).0.nodes == s.nodes,
{
}

/// A page without anything to transform. Where a page has no element
/// marked for fetching, no `style` element and no component, its
/// transforms leave it as it was parsed but for one new `style` element:
/// it holds the empty text and is the last child of the first `head`, or
/// of the root where there is none. The markup that the session hands on
/// is that of this tree. The store is taken to have room for the two
/// nodes of the new element.
pub proof fn law_plain_page(s: SessionView, root: usize, uri: UriView)
    requires
        s.carry is None,
        crate::html::dom::linked(s.nodes),
        s.nodes.len() + 2 <= usize::MAX,
        root < s.nodes.len(),
        s.nodes[root as int].parent is None,
        crate::html::dom::selected(s.nodes, root, fetch_selector()).len() == 0,
        crate::html::dom::selected(s.nodes, root, crate::html::mods::css::style_selector()).len()
            == 0,
        components(s.nodes, root).len() == 0,
    ensures
        ({
            let page = PageView { root, uri, whole: true, mods: pipeline(), stage: 0 };
            let begun = s.pushed(FrameView::Page { at: page, phase: PhaseView::Stage });
            let after = crate::html::mods::css::restyled(s.nodes, root, Seq::empty());
            begun.proceeded().0.proceeded().0.proceeded().0.proceeded().0.proceeded().0.proceeded()
                == (
                s.with_nodes(after).with_carry(
                    Some(ValueView::Page(Ok(markup(listing(after, root, after.len()))))),
                ),
                StepView::More,
            )
        }),
{
    let page = PageView { root, uri, whole: true, mods: pipeline(), stage: 0 };
    let begun = s.pushed(FrameView::Page { at: page, phase: PhaseView::Stage });
    let css = Seq::<char>::empty();
    let after = crate::html::mods::css::restyled(s.nodes, root, css);
    let none = Seq::<usize>::empty();
    assert(pipeline()[0] == ModKind::Fetch && pipeline()[1] == ModKind::Css && pipeline()[2]
        == ModKind::Component && pipeline().len() == 3);

    assert(begun.rest().stack =~= s.stack);
    assert(begun.rest() == s);
    let one = begun.proceeded().0;
    assert(crate::html::dom::selected(s.nodes, root, fetch_selector()) =~= none);
    assert(one == s.pushed(
        FrameView::Page { at: page, phase: PhaseView::Fetch { targets: none, next: 0 } },
    ));

    assert(one.rest().stack =~= s.stack);
    assert(one.rest() == s);
    let two = one.proceeded().0;
    assert(two == s.pushed(FrameView::Page { at: page.onward(), phase: PhaseView::Stage }));

    assert(two.rest().stack =~= s.stack);
    assert(two.rest() == s);
    let three = two.proceeded().0;
    let styles = crate::html::dom::selected(
        s.nodes,
        root,
        crate::html::mods::css::style_selector(),
    );
    assert(crate::html::mods::css::swept(s.nodes, styles, styles.len()) == (
        s.nodes,
        Seq::<char>::empty(),
    ));
    assert(bundled(s.nodes, root) == (after, Ok::<(), crate::html::mods::css::MinifyCssErrorView>(())));
    let grown = s.with_nodes(after);
    assert(three == grown.pushed(
        FrameView::Page { at: page.onward().onward(), phase: PhaseView::Stage },
    ));

    assert(three.rest().stack =~= s.stack);
    assert(three.rest() == grown);
    let four = three.proceeded().0;
    assert(components(after, root) =~= none) by {
        crate::html::mods::css::lemma_restyled_picks_nothing_new(
            s.nodes,
            root,
            css,
            crate::html::mods::component::object_selector(),
        );
        crate::html::mods::css::lemma_restyled_picks_nothing_new(
            s.nodes,
            root,
            css,
            crate::html::mods::component::link_selector(),
        );
    }
    assert(four == grown.pushed(
        FrameView::Page {
            at: page.onward().onward(),
            phase: PhaseView::Component { targets: none, next: 0 },
        },
    ));

    assert(four.rest().stack =~= s.stack);
    assert(four.rest() == grown);
    let five = four.proceeded().0;
    assert(five == grown.pushed(
        FrameView::Page { at: page.onward().onward().onward(), phase: PhaseView::Stage },
    ));

    assert(five.rest().stack =~= s.stack);
    assert(five.rest() == grown);
}

/// A file is served as it is. Where the index page of the directory that
/// a URI may name does not exist, the resolution reads the file that the
/// URI names. A file that is no page and no stylesheet source is handed
/// out as it was read, under the media type of its extension: the
/// session ends with it at the next step.
pub proof fn law_file_is_served(
    root: Seq<char>,
    authority: Seq<char>,
    uri: UriView,
    bytes: Seq<u8>,
    mime: MediaType,
)
    requires
        media_type_of_path(plain_path(root, uri.path)) == Some(mime),
        mime != MediaType::Html,
        !is_scss(uri.path),
        rehomed(uri, authority) is Ok,
    ensures
        ({
            let begun = fresh(root, authority).pushed(routing(root, uri));
            let asked = begun.resumed(ReplyView::Exists(false));
            let read = asked.0.resumed(ReplyView::Read(Ok(bytes)));
            &&& asked.1 == StepView::Ask(RequestView::Read(plain_path(root, uri.path)))
            &&& read.1 == StepView::More
            &&& read.0.proceeded().1 == StepView::Done(
                ValueView::Source(Ok(ResolvedView { body: bytes, mime })),
            )
        }),
{
    let start = fresh(root, authority);
    let path = plain_path(root, uri.path);
    law_directory_routing(start, uri, false);
    let asked = start.pushed(routing(root, uri)).resumed(ReplyView::Exists(false));
    let reading = start.pushed(FrameView::Reading { uri, path });
    assert(asked.0 == reading);
    assert(reading.rest().stack =~= start.stack);
    assert(reading.rest() == start);
    let read = reading.resumed(ReplyView::Read(Ok(bytes)));
    assert(read == start.handed(ValueView::Source(Ok(ResolvedView { body: bytes, mime }))));
}

/// An index page is served. Where the index page of the directory that a
/// URI names exists, the resolution reads that page, and the page runs
/// through the transforms. A page that is UTF-8 and has no element
/// marked for fetching, no `style` element and no component ends, eight
/// steps after it was read, as the markup of its tree with the one new
/// `style` element, under the media type of pages. The page is short
/// enough for the parser, and the parser's output is taken to be one
/// tree that the store has room for.
pub proof fn law_index_page_is_served(
    root: Seq<char>,
    authority: Seq<char>,
    uri: UriView,
    bytes: Seq<u8>,
)
    requires
        vstd::utf8::valid_utf8(bytes),
        bytes.len() <= crate::html::markup::PARSE_LIMIT,
        rehomed(uri, authority) is Ok,
        crate::html::listing::well_nested(html_document(vstd::utf8::decode_utf8(bytes))),
        html_document(vstd::utf8::decode_utf8(bytes)).len() + 2 <= usize::MAX,
        ({
            let page = html_document(vstd::utf8::decode_utf8(bytes));
            let nodes = grafted(Seq::empty(), page, page.len());
            &&& crate::html::dom::selected(nodes, 0, fetch_selector()).len() == 0
            &&& crate::html::dom::selected(
                nodes,
                0,
                crate::html::mods::css::style_selector(),
            ).len() == 0
            &&& components(nodes, 0).len() == 0
        }),
    ensures
        ({
            let begun = fresh(root, authority).pushed(routing(root, uri));
            let asked = begun.resumed(ReplyView::Exists(true));
            let read = asked.0.resumed(ReplyView::Read(Ok(bytes)));
            let page = html_document(vstd::utf8::decode_utf8(bytes));
            let after = crate::html::mods::css::restyled(
                grafted(Seq::empty(), page, page.len()),
                0,
                Seq::empty(),
            );
            &&& asked.1 == StepView::Ask(RequestView::Read(index_path(root, uri.path)))
            &&& read.1 == StepView::More
            &&& read.0.run(8).1 == StepView::Done(
                ValueView::Source(
                    Ok(
                        ResolvedView {
                            body: vstd::utf8::encode_utf8(markup(listing(after, 0, after.len()))),
                            mime: MediaType::Html,
                        },
                    ),
                ),
            )
        }),
{
    let start = fresh(root, authority);
    let path = index_path(root, uri.path);
    let page = html_document(vstd::utf8::decode_utf8(bytes));
    let nodes = grafted(Seq::empty(), page, page.len());
    let after = crate::html::mods::css::restyled(nodes, 0, Seq::empty());
    let home = rehomed(uri, authority)->Ok_0;

    vstd::utf8::decode_utf8_encode_utf8(bytes);
    assert(crate::html::markup::fits_parser(vstd::utf8::decode_utf8(bytes)));
    law_directory_routing(start, uri, true);
    law_index_is_a_page(root, uri.path);
    let reading = start.pushed(FrameView::Reading { uri, path });
    assert(reading.rest().stack =~= start.stack);
    assert(reading.rest() == start);
    let read = reading.resumed(ReplyView::Read(Ok(bytes)));

    let waiting = start.with_nodes(nodes).pushed(FrameView::Transforming { mime: MediaType::Html });
    let at = PageView { root: 0, uri: home, whole: true, mods: pipeline(), stage: 0 };
    assert(read == (
        waiting.pushed(FrameView::Page { at, phase: PhaseView::Stage }),
        StepView::More,
    ));

    crate::html::shape::lemma_grafted_linked(Seq::empty(), page, page.len());
    law_plain_page(waiting, 0, home);
    let s0 = read.0;
    let s1 = s0.proceeded().0;
    let s2 = s1.proceeded().0;
    let s3 = s2.proceeded().0;
    let s4 = s3.proceeded().0;
    let s5 = s4.proceeded().0;
    let s6 = s5.proceeded().0;
    let text = markup(listing(after, 0, after.len()));
    assert(s6 == waiting.with_nodes(after).with_carry(Some(ValueView::Page(Ok(text)))));
    assert(s0.run(0).0 == s0);
    assert(s0.run(1).0 == s1);
    assert(s0.run(2).0 == s2);
    assert(s0.run(3).0 == s3);
    assert(s0.run(4).0 == s4);
    assert(s0.run(5).0 == s5);
    assert(s0.run(6).0 == s6);

    let held = s6.with_carry(None);
    assert(held.stack.last() == FrameView::Transforming { mime: MediaType::Html });
    assert(held.rest().stack =~= start.stack);
    let out = ValueView::Source(
        Ok(ResolvedView { body: vstd::utf8::encode_utf8(text), mime: MediaType::Html }),
    );
    let s7 = s6.proceeded().0;
    assert(s6.proceeded() == held.rest().handed(out));
    assert(s0.run(7).0 == s7);
    assert(s7.stack.len() == 0);
    assert(s7.proceeded().1 == StepView::Done(out));
    assert(s0.run(8) == s7.proceeded());
}

/// A stack that fits together does so without the part on top, and the
/// part below waits for what the part on top ends with.
proof fn lemma_stacked_rest(stack: Seq<FrameView>)
    requires
        stacked(stack),
        stack.len() > 0,
    ensures
        stacked(stack.drop_last()),
        waits_for(stack.drop_last(), gives(stack.last())),
{
    let rest = stack.drop_last();
    assert forall|i: int| 1 <= i < rest.len() implies takes(rest[i - 1]) == Some(
        gives(#[trigger] rest[i]),
    ) by {
        assert(rest[i] == stack[i] && rest[i - 1] == stack[i - 1]);
    }
    if rest.len() > 0 {
        assert(rest.last() == stack[stack.len() - 2]);
        assert(stack.last() == stack[stack.len() - 1]);
    }
}

/// A stack that fits together does so with one more part on top that
/// ends with what the stack waits for.
proof fn lemma_stacked_pushed(stack: Seq<FrameView>, frame: FrameView)
    requires
        stacked(stack),
        waits_for(stack, gives(frame)),
    ensures
        stacked(stack.push(frame)),
        stack.push(frame).last() == frame,
        stack.push(frame).drop_last() == stack,
{
    let more = stack.push(frame);
    assert forall|i: int| 1 <= i < more.len() implies takes(more[i - 1]) == Some(
        gives(#[trigger] more[i]),
    ) by {
        if i < stack.len() {
            assert(more[i] == stack[i] && more[i - 1] == stack[i - 1]);
        } else {
            assert(more[i] == frame);
            assert(more[i - 1] == stack.last());
        }
    }
    assert(more.drop_last() =~= stack);
}

/// A page leaves the session coherent where it ends, with its markup or
/// with a failure, and where it goes on in a phase in which it waits for
/// no value.
proof fn lemma_page_steps(s: SessionView, at: PageView, phase: PhaseView, e: ErrorView)
    requires
        stacked(s.stack),
        waits_for(s.stack, page_gives(at.whole)),
    ensures
        coherent(s.page_failed(at.whole, e).0),
        coherent(s.page_done(at).0),
        takes(FrameView::Page { at, phase }) is None ==> coherent(
            s.with_carry(None).pushed(FrameView::Page { at, phase }),
        ),
        stacked(s.stack.push(FrameView::Page { at, phase })),
{
    lemma_stacked_pushed(s.stack, FrameView::Page { at, phase });
}

/// The parts of a session that fit together still do after a step
/// without an answer from outside.
proof fn lemma_proceeded_coherent(s: SessionView)
    requires
        coherent(s),
    ensures
        coherent(s.proceeded().0),
{
    if s.stack.len() == 0 {
        return ;
    }
    let top = s.stack.last();
    let rest = s.rest();
    lemma_stacked_rest(s.stack);
    match s.carry {
        Some(value) => {
            let held = s.with_carry(None);
            assert(held.stack == s.stack);
            assert(held.rest().stack == rest.stack);
            match (top, value) {
                (FrameView::Transforming { mime }, ValueView::Page(res)) => {},
                (
                    FrameView::Page {
                        at,
                        phase: PhaseView::Fetching { targets, next, container, internal },
                    },
                    ValueView::Source(res),
                ) => {
                    let e = ErrorView::ModMissing;
                    lemma_page_steps(
                        held.rest(),
                        at,
                        PhaseView::Fetch { targets, next: (next + 1) as usize },
                        e,
                    );
                    lemma_stacked_pushed(
                        rest.stack,
                        FrameView::Page {
                            at,
                            phase: PhaseView::Fetch { targets, next: (next + 1) as usize },
                        },
                    );
                },
                (
                    FrameView::Page {
                        at,
                        phase: PhaseView::Loading { targets, next, props, slot, internal },
                    },
                    ValueView::Source(res),
                ) => {
                    lemma_answered_coherent(held.rest(), at, targets, next, props, slot, match res {
                        Ok(r) => Ok(r.body),
                        Err(e) => Err(ComponentModErrorView::ResolverError(e)),
                    });
                },
                (
                    FrameView::Page { at, phase: PhaseView::Nesting { targets, next, fragment } },
                    ValueView::Part(res),
                ) => {
                    lemma_stacked_pushed(
                        rest.stack,
                        FrameView::Page {
                            at,
                            phase: PhaseView::Component { targets, next: (next + 1) as usize },
                        },
                    );
                },
                _ => {
                    assert(takes(top) == Some(kind_of(value)));
                },
            }
        },
        None => {
            match top {
                FrameView::Page { at, phase: PhaseView::Stage } => {
                    lemma_stacked_pushed(
                        rest.stack,
                        FrameView::Page { at: at.onward(), phase: PhaseView::Stage },
                    );
                    lemma_stacked_pushed(
                        rest.stack,
                        FrameView::Page {
                            at,
                            phase: PhaseView::Fetch {
                                targets: crate::html::dom::selected(
                                    rest.nodes,
                                    at.root,
                                    fetch_selector(),
                                ),
                                next: 0,
                            },
                        },
                    );
                    lemma_stacked_pushed(
                        rest.stack,
                        FrameView::Page {
                            at,
                            phase: PhaseView::Component {
                                targets: components(rest.nodes, at.root),
                                next: 0,
                            },
                        },
                    );
                },
                FrameView::Page { at, phase: PhaseView::Fetch { targets, next } } => {
                    lemma_stacked_pushed(
                        rest.stack,
                        FrameView::Page { at: at.onward(), phase: PhaseView::Stage },
                    );
                    lemma_stacked_pushed(
                        rest.stack,
                        FrameView::Page {
                            at,
                            phase: PhaseView::Fetch { targets, next: (next + 1) as usize },
                        },
                    );
                    if next < targets.len() {
                        match job_of(rest.nodes[targets[next as int] as int], at.uri) {
                            FetchJobView::Internal(uri, container) => {
                                let waiting = FrameView::Page {
                                    at,
                                    phase: PhaseView::Fetching {
                                        targets,
                                        next,
                                        container,
                                        internal: true,
                                    },
                                };
                                lemma_stacked_pushed(rest.stack, waiting);
                                lemma_stacked_pushed(
                                    rest.stack.push(waiting),
                                    routing(rest.root, uri),
                                );
                            },
                            FetchJobView::External(uri, container) => {
                                lemma_stacked_pushed(
                                    rest.stack,
                                    FrameView::Page {
                                        at,
                                        phase: PhaseView::Fetching {
                                            targets,
                                            next,
                                            container,
                                            internal: false,
                                        },
                                    },
                                );
                            },
                            _ => {},
                        }
                    }
                },
                FrameView::Page { at, phase: PhaseView::Component { targets, next } } => {
                    lemma_stacked_pushed(
                        rest.stack,
                        FrameView::Page { at: at.onward(), phase: PhaseView::Stage },
                    );
                    lemma_stacked_pushed(
                        rest.stack,
                        FrameView::Page {
                            at,
                            phase: PhaseView::Component { targets, next: (next + 1) as usize },
                        },
                    );
                    if next < targets.len() {
                        let target = targets[next as int];
                        let props = props_read(rest.nodes, target);
                        let slot = rest.nodes.len() as usize;
                        match component_job_of(rest.nodes[target as int], at.uri) {
                            ComponentJobView::Internal(uri) => {
                                let waiting = FrameView::Page {
                                    at,
                                    phase: PhaseView::Loading {
                                        targets,
                                        next,
                                        props,
                                        slot,
                                        internal: true,
                                    },
                                };
                                lemma_stacked_pushed(rest.stack, waiting);
                                lemma_stacked_pushed(
                                    rest.stack.push(waiting),
                                    routing(rest.root, uri),
                                );
                            },
                            ComponentJobView::External(uri) => {
                                lemma_stacked_pushed(
                                    rest.stack,
                                    FrameView::Page {
                                        at,
                                        phase: PhaseView::Loading {
                                            targets,
                                            next,
                                            props,
                                            slot,
                                            internal: false,
                                        },
                                    },
                                );
                            },
                            _ => {},
                        }
                    }
                },
                _ => {},
            }
        },
    }
}

/// The parts of a session fit together after the body of a component
/// has come back, or not.
proof fn lemma_answered_coherent(
    s: SessionView,
    at: PageView,
    targets: Seq<usize>,
    next: usize,
    props: Seq<(Seq<char>, Seq<char>)>,
    slot: usize,
    res: Result<Seq<u8>, ComponentModErrorView>,
)
    requires
        s.carry is None,
        stacked(s.stack),
        waits_for(s.stack, page_gives(at.whole)),
    ensures
        coherent(s.component_answered(at, targets, next, props, slot, res).0),
{
    match res {
        Err(e) => {},
        Ok(body) => {
            let made = crate::html::mods::component::expanded(s.nodes, body, props, slot);
            match made.1 {
                Err(e) => {},
                Ok(el) => {
                    let waiting = FrameView::Page {
                        at,
                        phase: PhaseView::Nesting { targets, next, fragment: el },
                    };
                    let inner = FrameView::Page {
                        at: PageView { root: el, uri: at.uri, whole: false, mods: at.mods, stage: 0 },
                        phase: PhaseView::Stage,
                    };
                    lemma_stacked_pushed(s.stack, waiting);
                    lemma_stacked_pushed(s.stack.push(waiting), inner);
                },
            }
        },
    }
}

/// The parts of a session that fit together still do after an answer
/// from outside.
proof fn lemma_resumed_coherent(s: SessionView, reply: ReplyView)
    requires
        coherent(s),
    ensures
        coherent(s.resumed(reply).0),
{
    if s.stack.len() == 0 || s.carry is Some {
        return ;
    }
    let top = s.stack.last();
    let rest = s.rest();
    lemma_stacked_rest(s.stack);
    match (top, reply) {
        (FrameView::Routing { uri, plain, index }, ReplyView::Exists(found)) => {
            lemma_stacked_pushed(rest.stack, FrameView::Reading { uri, path: index });
            lemma_stacked_pushed(rest.stack, FrameView::Reading { uri, path: plain });
        },
        (FrameView::Reading { uri, path }, ReplyView::Read(res)) => {
            match res {
                Ok(bytes) => {
                    match media_type_of_path(path) {
                        Some(mime) => {
                            let waiting = FrameView::Transforming { mime };
                            lemma_stacked_pushed(rest.stack, waiting);
                            lemma_stacked_pushed(rest.stack, FrameView::Compiling { mime });
                            match rehomed(uri, rest.authority) {
                                Ok(home) => {
                                    lemma_stacked_pushed(
                                        rest.stack.push(waiting),
                                        FrameView::Page {
                                            at: PageView {
                                                root: rest.nodes.len() as usize,
                                                uri: home,
                                                whole: true,
                                                mods: pipeline(),
                                                stage: 0,
                                            },
                                            phase: PhaseView::Stage,
                                        },
                                    );
                                },
                                Err(_) => {},
                            }
                        },
                        None => {},
                    }
                },
                Err(_) => {},
            }
        },
        (FrameView::Compiling { mime }, ReplyView::Compiled(css)) => {},
        (
            FrameView::Page {
                at,
                phase: PhaseView::Fetching { targets, next, container, internal },
            },
            ReplyView::Got(res),
        ) => {
            lemma_stacked_pushed(
                rest.stack,
                FrameView::Page {
                    at,
                    phase: PhaseView::Fetch { targets, next: (next + 1) as usize },
                },
            );
        },
        (
            FrameView::Page {
                at,
                phase: PhaseView::Loading { targets, next, props, slot, internal },
            },
            ReplyView::Got(res),
        ) => {
            lemma_answered_coherent(rest, at, targets, next, props, slot, match res {
                Ok(remote) => crate::html::mods::component::remote_body(remote.0, remote.1),
                Err(crate::source::model::RemoteErrorView::Network(m)) => Err(
                    ComponentModErrorView::Network(m),
                ),
                Err(crate::source::model::RemoteErrorView::Io(m)) => Err(
                    ComponentModErrorView::IoError(m),
                ),
            });
        },
        _ => {},
    }
}

/// Nothing is dropped. The parts of a session that a resolution or a
/// page begins with fit together, and they still do after every step,
/// whatever the answers from outside: so a value that waits to be handed
/// on is always of the kind that the part on top waits for, and is
/// handed to it or, with no part left, ends the session.
pub proof fn law_nothing_is_dropped(
    root: Seq<char>,
    authority: Seq<char>,
    uri: UriView,
    mods: Seq<ModKind>,
    html: Seq<char>,
    s: SessionView,
    reply: ReplyView,
)
    ensures
        coherent(fresh(root, authority).pushed(routing(root, uri))),
        coherent(page_begun(root, authority, uri, mods, html)),
        coherent(s) ==> coherent(s.proceeded().0) && coherent(s.resumed(reply).0),
        coherent(s) ==> match s.carry {
            Some(value) => waits_for(s.stack, kind_of(value)),
            None => true,
        },
{
    let empty = Seq::<FrameView>::empty();
    lemma_stacked_pushed(empty, routing(root, uri));
    lemma_stacked_pushed(
        empty,
        FrameView::Page {
            at: PageView { root: 0, uri, whole: true, mods, stage: 0 },
            phase: PhaseView::Stage,
        },
    );
    if coherent(s) {
        lemma_proceeded_coherent(s);
        lemma_resumed_coherent(s, reply);
    }
}

} // verus!
