//! The session as a state machine over plain values: what a session is,
//! and what each step makes of it.

use vstd::prelude::*;
use vstd::utf8::{decode_utf8, valid_utf8};
use crate::error::{ComponentModErrorView, ErrorView, FetchErrorView, ResolverErrorView};
use crate::html::attr::{uri_from_parts, uri_text, UriPartsError, UriView};
use crate::html::dom::{linked, NodeView};
use crate::html::listing::{grafted, listing};
use crate::html::markup::{fits_parser, html_document, markup};
use crate::html::mods::component::{
    component_job_of, components, data_read, expanded, props_read, remote_body, ComponentJobView,
};
use crate::html::mods::css::bundled;
use crate::html::mods::fetch::{fetch_selector, fetched, job_of, replaced, Container, FetchJobView};
use crate::html::mods::{pipeline, ModKind};
use crate::mediatype::{declared_type, media_type_of_path, MediaType};
use crate::path::{extension_of, joined};
use crate::source::ReadError;
use crate::text::lowered;

verus! {

/// A resolved resource: the bytes of its body and its media type.
pub struct ResolvedView {
    pub body: Seq<u8>,
    pub mime: MediaType,
}

/// What a session needs from outside: whether a file exists, the bytes of
/// a file, the resource of a URI fetched over the network, or the
/// stylesheet that the bytes of a stylesheet source compile to.
pub enum RequestView {
    Exists(Seq<char>),
    Read(Seq<char>),
    Get(Seq<char>),
    Compile(Seq<u8>),
}

/// Why nothing came back over the network: the request failed, or the
/// body could not be read. Each holds the message of the failure.
pub enum RemoteErrorView {
    Network(Seq<char>),
    Io(Seq<char>),
}

/// The answer to a request. What came back over the network is the
/// content type that the response declares and the bytes of its body. A
/// source that does not compile has no stylesheet.
pub enum ReplyView {
    Exists(bool),
    Read(Result<Seq<u8>, ReadError>),
    Got(Result<(Seq<char>, Seq<u8>), RemoteErrorView>),
    Compiled(Option<Seq<u8>>),
}

/// What a part of a session ends with: a resolved resource, the markup of
/// a transformed page, or a transformed fragment, which stays in the
/// store.
pub enum ValueView {
    Source(Result<ResolvedView, ResolverErrorView>),
    Page(Result<Seq<char>, ErrorView>),
    Part(Result<(), ErrorView>),
}

/// What a session says after a step: it asks for something, it has more
/// to do, or it has ended.
pub enum StepView {
    Ask(RequestView),
    More,
    Done(ValueView),
}

/// Where a page stands in the transform that runs over it.
pub enum PhaseView {
    /// About to begin the transform at the page's position in the order,
    /// or to end where the order is at its end.
    Stage,
    /// In the fetch transform, about to look at `targets[next]`. The
    /// targets were selected when the transform began.
    Fetch { targets: Seq<usize>, next: usize },
    /// Waiting for the resource of `targets[next]`, which goes into the
    /// container: from the resolver where `internal` is set, over the
    /// network where it is not.
    Fetching { targets: Seq<usize>, next: usize, container: Container, internal: bool },
    /// In the component transform, about to look at `targets[next]`.
    Component { targets: Seq<usize>, next: usize },
    /// Waiting for the body of the component of `targets[next]`, with the
    /// caller's values and slot at hand.
    Loading {
        targets: Seq<usize>,
        next: usize,
        props: Seq<(Seq<char>, Seq<char>)>,
        slot: usize,
        internal: bool,
    },
    /// Waiting for the transforms to run over the fragment that will
    /// replace `targets[next]`.
    Nesting { targets: Seq<usize>, next: usize, fragment: usize },
}

/// A page or fragment that is being transformed.
pub struct PageView {
    /// The node that the transforms work under.
    pub root: usize,
    /// The URI of the page, against which links are resolved.
    pub uri: UriView,
    /// Whether this is a page of its own, which ends as markup, or a
    /// fragment of another page, which stays in the store.
    pub whole: bool,
    /// The transforms that run over it, in their order.
    pub mods: Seq<ModKind>,
    /// The position in the order of the transform that runs or runs next.
    pub stage: usize,
}

impl PageView {
    /// The page at the next transform of the order.
    pub open spec fn onward(self) -> PageView {
        PageView { stage: (self.stage + 1) as usize, ..self }
    }
}

/// One part of a session. The parts stand on a stack: the one on top is
/// at work, and each of the others waits for the one above it.
pub enum FrameView {
    /// Resolving `uri`: waiting to hear whether the file `index` exists.
    /// Where it does not, the file `plain` is read.
    Routing { uri: UriView, plain: Seq<char>, index: Seq<char> },
    /// Resolving `uri`: waiting for the bytes of the file `path`.
    Reading { uri: UriView, path: Seq<char> },
    /// Resolving a page: waiting for its transforms.
    Transforming { mime: MediaType },
    /// Resolving a stylesheet source: waiting for the stylesheet that it
    /// compiles to, which is handed on under the media type `mime`.
    Compiling { mime: MediaType },
    /// Transforming a page or fragment.
    Page { at: PageView, phase: PhaseView },
}

/// A session.
pub struct SessionView {
    /// The directory that is served.
    pub root: Seq<char>,
    /// The authority that pages are served under.
    pub authority: Seq<char>,
    /// The store of nodes.
    pub nodes: Seq<NodeView>,
    /// The parts of the session, the one at work last.
    pub stack: Seq<FrameView>,
    /// What the part on top is to be handed next, if anything.
    pub carry: Option<ValueView>,
}

/// A path without its first character, the leading slash of a URI path;
/// empty where the path is empty or begins with a character outside
/// ASCII.
pub open spec fn stripped(path: Seq<char>) -> Seq<char> {
    if path.len() > 0 && path[0] <= '\x7f' {
        path.skip(1)
    } else {
        Seq::empty()
    }
}

/// The file that a URI path names under a root.
pub open spec fn plain_path(root: Seq<char>, path: Seq<char>) -> Seq<char> {
    joined(root, stripped(path))
}

/// The index page of the directory that a URI path names under a root.
pub open spec fn index_path(root: Seq<char>, path: Seq<char>) -> Seq<char> {
    joined(plain_path(root, path), "index.html"@)
}

/// The part of a session that begins to resolve a URI.
pub open spec fn routing(root: Seq<char>, uri: UriView) -> FrameView {
    FrameView::Routing {
        uri,
        plain: plain_path(root, uri.path),
        index: index_path(root, uri.path),
    }
}

/// A URI moved to the scheme `http` and the given authority. A URI
/// without a path cannot be moved.
pub open spec fn rehomed(uri: UriView, authority: Seq<char>) -> Result<UriView, UriPartsError> {
    uri_from_parts(
        Some("http"@),
        Some(authority),
        if uri.path.len() == 0 {
            None
        } else {
            Some((uri.path, uri.query))
        },
    )
}

/// Whether a URI path names a stylesheet source: its extension is `scss`
/// in small or capital letters.
pub open spec fn is_scss(path: Seq<char>) -> bool {
    match extension_of(path) {
        Some(ext) => lowered(ext) == "scss"@,
        None => false,
    }
}

/// What comes of compiling a stylesheet source: the stylesheet under the
/// media type of the file, or the failure to compile.
pub open spec fn compiled(css: Option<Seq<u8>>, mime: MediaType) -> Result<
    ResolvedView,
    ResolverErrorView,
> {
    match css {
        Some(body) => Ok(ResolvedView { body, mime }),
        None => Err(ResolverErrorView::ParseAsMime),
    }
}

impl SessionView {
    /// The session with another store.
    pub open spec fn with_nodes(self, nodes: Seq<NodeView>) -> SessionView {
        SessionView { nodes, ..self }
    }

    /// The session with another stack.
    pub open spec fn with_stack(self, stack: Seq<FrameView>) -> SessionView {
        SessionView { stack, ..self }
    }

    /// The session with something to hand on, or nothing.
    pub open spec fn with_carry(self, carry: Option<ValueView>) -> SessionView {
        SessionView { carry, ..self }
    }

    /// The session without the part on top.
    pub open spec fn rest(self) -> SessionView {
        self.with_stack(self.stack.drop_last())
    }

    /// The session with one more part on top.
    pub open spec fn pushed(self, frame: FrameView) -> SessionView {
        self.with_stack(self.stack.push(frame))
    }

    /// The session after a part has ended with a value: the value waits
    /// for the part that is now on top.
    pub open spec fn handed(self, value: ValueView) -> (SessionView, StepView) {
        (self.with_carry(Some(value)), StepView::More)
    }

    /// The session after a page has failed.
    pub open spec fn page_failed(self, whole: bool, e: ErrorView) -> (SessionView, StepView) {
        self.handed(
            if whole {
                ValueView::Page(Err(e))
            } else {
                ValueView::Part(Err(e))
            },
        )
    }

    /// The session after a page has run all its transforms: a whole page
    /// is handed on as markup, a fragment stays in the store.
    pub open spec fn page_done(self, at: PageView) -> (SessionView, StepView) {
        self.handed(
            if at.whole {
                ValueView::Page(Ok(markup(listing(self.nodes, at.root, self.nodes.len()))))
            } else {
                ValueView::Part(Ok(()))
            },
        )
    }

    /// The session after the file of a resolution has been read, or not.
    /// A missing file and any other failure are told apart. The media
    /// type goes by the extension of the file's path. A page is parsed
    /// and its transforms begin, under the URI moved to the resolver's
    /// authority: fetch, css, component. A page that is too long for the
    /// parser cannot be read as a page. For a stylesheet source, told by
    /// the URI's extension, the session asks for the stylesheet that the
    /// bytes compile to. Anything else is handed on as it was read.
    pub open spec fn read_done(
        self,
        uri: UriView,
        path: Seq<char>,
        res: Result<Seq<u8>, ReadError>,
    ) -> (SessionView, StepView) {
        match res {
            Err(ReadError::NotFound) => self.handed(
                ValueView::Source(Err(ResolverErrorView::NotFound)),
            ),
            Err(ReadError::Other) => self.handed(
                ValueView::Source(Err(ResolverErrorView::ServerIssue)),
            ),
            Ok(bytes) => match media_type_of_path(path) {
                None => self.handed(ValueView::Source(Err(ResolverErrorView::NoMimeFound))),
                Some(mime) => match rehomed(uri, self.authority) {
                    Err(e) => self.handed(
                        ValueView::Source(Err(ResolverErrorView::InvalidUriParts(e))),
                    ),
                    Ok(home) => if mime == MediaType::Html {
                        if !valid_utf8(bytes) {
                            self.handed(ValueView::Source(Err(ResolverErrorView::WasNotUtf8)))
                        } else if !fits_parser(decode_utf8(bytes)) {
                            self.handed(ValueView::Source(Err(ResolverErrorView::ParseAsMime)))
                        } else {
                            let page = html_document(decode_utf8(bytes));
                            (
                                self.with_nodes(grafted(self.nodes, page, page.len())).pushed(
                                    FrameView::Transforming { mime },
                                ).pushed(
                                    FrameView::Page {
                                        at: PageView {
                                            root: self.nodes.len() as usize,
                                            uri: home,
                                            whole: true,
                                            mods: pipeline(),
                                            stage: 0,
                                        },
                                        phase: PhaseView::Stage,
                                    },
                                ),
                                StepView::More,
                            )
                        }
                    } else if is_scss(uri.path) {
                        (
                            self.pushed(FrameView::Compiling { mime }),
                            StepView::Ask(RequestView::Compile(bytes)),
                        )
                    } else {
                        self.handed(ValueView::Source(Ok(ResolvedView { body: bytes, mime })))
                    },
                },
            },
        }
    }

    /// The session after the resource for `targets[next]` of a page in
    /// its fetch transform has come back, or not. The resource is put
    /// into the container, the container replaces the element, and the
    /// page goes on to the next element. Any failure fails the page.
    pub open spec fn fetch_answered(
        self,
        at: PageView,
        targets: Seq<usize>,
        next: usize,
        container: Container,
        res: Result<(Seq<u8>, Seq<char>), FetchErrorView>,
    ) -> (SessionView, StepView) {
        match res {
            Err(e) => self.page_failed(at.whole, ErrorView::Fetch(e)),
            Ok(resp) => {
                let put = fetched(self.nodes, container, resp.0, resp.1);
                match put.1 {
                    Err(cause) => self.with_nodes(put.0).page_failed(
                        at.whole,
                        ErrorView::Fetch(FetchErrorView::Insertion(cause)),
                    ),
                    Ok(_) => (
                        self.with_nodes(
                            replaced(put.0, targets[next as int], self.nodes.len() as usize),
                        ).pushed(
                            FrameView::Page {
                                at,
                                phase: PhaseView::Fetch { targets, next: (next + 1) as usize },
                            },
                        ),
                        StepView::More,
                    ),
                }
            },
        }
    }

    /// The session after the body of the component for `targets[next]`
    /// has come back, or not. The body is made a fragment with the
    /// caller's data put in, and the transforms of the page begin on the
    /// fragment, under the URI of the page. Any failure fails the page.
    pub open spec fn component_answered(
        self,
        at: PageView,
        targets: Seq<usize>,
        next: usize,
        props: Seq<(Seq<char>, Seq<char>)>,
        slot: usize,
        res: Result<Seq<u8>, ComponentModErrorView>,
    ) -> (SessionView, StepView) {
        match res {
            Err(e) => self.page_failed(at.whole, ErrorView::Component(e)),
            Ok(body) => {
                let made = expanded(self.nodes, body, props, slot);
                match made.1 {
                    Err(e) => self.with_nodes(made.0).page_failed(
                        at.whole,
                        ErrorView::Component(e),
                    ),
                    Ok(el) => (
                        self.with_nodes(made.0).pushed(
                            FrameView::Page {
                                at,
                                phase: PhaseView::Nesting { targets, next, fragment: el },
                            },
                        ).pushed(
                            FrameView::Page {
                                at: PageView {
                                    root: el,
                                    uri: at.uri,
                                    whole: false,
                                    mods: at.mods,
                                    stage: 0,
                                },
                                phase: PhaseView::Stage,
                            },
                        ),
                        StepView::More,
                    ),
                }
            },
        }
    }

    /// The session after the transforms have run over the fragment for
    /// `targets[next]`: the fragment replaces the element and the page
    /// goes on to the next one. A failure of the fragment fails the page.
    pub open spec fn nested_done(
        self,
        at: PageView,
        targets: Seq<usize>,
        next: usize,
        fragment: usize,
        res: Result<(), ErrorView>,
    ) -> (SessionView, StepView) {
        match res {
            Err(e) => self.page_failed(at.whole, e),
            Ok(_) => (
                self.with_nodes(replaced(self.nodes, targets[next as int], fragment)).pushed(
                    FrameView::Page {
                        at,
                        phase: PhaseView::Component { targets, next: (next + 1) as usize },
                    },
                ),
                StepView::More,
            ),
        }
    }

    /// The session after a page has begun the transform at its position
    /// in the order, or has ended where the order is at its end. The css
    /// transform is run at once; the other two select their elements.
    pub open spec fn staged(self, at: PageView) -> (SessionView, StepView) {
        if at.stage >= at.mods.len() {
            self.page_done(at)
        } else {
            match at.mods[at.stage as int] {
                ModKind::Fetch => (
                    self.pushed(
                        FrameView::Page {
                            at,
                            phase: PhaseView::Fetch {
                                targets: crate::html::dom::selected(
                                    self.nodes,
                                    at.root,
                                    fetch_selector(),
                                ),
                                next: 0,
                            },
                        },
                    ),
                    StepView::More,
                ),
                ModKind::Css => {
                    let done = bundled(self.nodes, at.root);
                    match done.1 {
                        Err(e) => self.with_nodes(done.0).page_failed(at.whole, ErrorView::Css(e)),
                        Ok(_) => (
                            self.with_nodes(done.0).pushed(
                                FrameView::Page { at: at.onward(), phase: PhaseView::Stage },
                            ),
                            StepView::More,
                        ),
                    }
                },
                ModKind::Component => (
                    self.pushed(
                        FrameView::Page {
                            at,
                            phase: PhaseView::Component {
                                targets: components(self.nodes, at.root),
                                next: 0,
                            },
                        },
                    ),
                    StepView::More,
                ),
            }
        }
    }

    /// The session after a page in its fetch transform has looked at
    /// `targets[next]`. An element without a link that can be read is
    /// passed over. A link into this site is handed to the resolver, a
    /// full URI is asked for over the network. With no element left the
    /// page goes on to the next transform.
    pub open spec fn fetch_next(self, at: PageView, targets: Seq<usize>, next: usize) -> (
        SessionView,
        StepView,
    ) {
        if next >= targets.len() {
            (self.pushed(FrameView::Page { at: at.onward(), phase: PhaseView::Stage }), StepView::More)
        } else {
            match job_of(self.nodes[targets[next as int] as int], at.uri) {
                FetchJobView::Skip => (
                    self.pushed(
                        FrameView::Page {
                            at,
                            phase: PhaseView::Fetch { targets, next: (next + 1) as usize },
                        },
                    ),
                    StepView::More,
                ),
                FetchJobView::Fail(e) => self.page_failed(at.whole, ErrorView::Fetch(e)),
                FetchJobView::Internal(uri, container) => (
                    self.pushed(
                        FrameView::Page {
                            at,
                            phase: PhaseView::Fetching { targets, next, container, internal: true },
                        },
                    ).pushed(routing(self.root, uri)),
                    StepView::Ask(RequestView::Exists(index_path(self.root, uri.path))),
                ),
                FetchJobView::External(uri, container) => (
                    self.pushed(
                        FrameView::Page {
                            at,
                            phase: PhaseView::Fetching { targets, next, container, internal: false },
                        },
                    ),
                    StepView::Ask(RequestView::Get(uri_text(uri))),
                ),
            }
        }
    }

    /// The session after a page in its component transform has looked at
    /// `targets[next]`: the caller's data is read off the element, and
    /// its link is dealt with as in the fetch transform.
    pub open spec fn component_next(self, at: PageView, targets: Seq<usize>, next: usize) -> (
        SessionView,
        StepView,
    ) {
        if next >= targets.len() {
            (self.pushed(FrameView::Page { at: at.onward(), phase: PhaseView::Stage }), StepView::More)
        } else {
            let target = targets[next as int];
            let read = self.with_nodes(data_read(self.nodes, target));
            let props = props_read(self.nodes, target);
            let slot = self.nodes.len() as usize;
            match component_job_of(self.nodes[target as int], at.uri) {
                ComponentJobView::Skip => (
                    read.pushed(
                        FrameView::Page {
                            at,
                            phase: PhaseView::Component { targets, next: (next + 1) as usize },
                        },
                    ),
                    StepView::More,
                ),
                ComponentJobView::Fail(e) => read.page_failed(at.whole, ErrorView::Component(e)),
                ComponentJobView::Internal(uri) => (
                    read.pushed(
                        FrameView::Page {
                            at,
                            phase: PhaseView::Loading { targets, next, props, slot, internal: true },
                        },
                    ).pushed(routing(self.root, uri)),
                    StepView::Ask(RequestView::Exists(index_path(self.root, uri.path))),
                ),
                ComponentJobView::External(uri) => (
                    read.pushed(
                        FrameView::Page {
                            at,
                            phase: PhaseView::Loading { targets, next, props, slot, internal: false },
                        },
                    ),
                    StepView::Ask(RequestView::Get(uri_text(uri))),
                ),
            }
        }
    }

    /// The session after the page on top has done its next piece of work.
    /// A part that waits for something stays as it is.
    pub open spec fn advanced(self) -> (SessionView, StepView) {
        if self.stack.len() == 0 {
            (self, StepView::More)
        } else {
            match self.stack.last() {
                FrameView::Page { at, phase: PhaseView::Stage } => self.rest().staged(at),
                FrameView::Page { at, phase: PhaseView::Fetch { targets, next } } => self.rest().fetch_next(
                    at,
                    targets,
                    next,
                ),
                FrameView::Page {
                    at,
                    phase: PhaseView::Component { targets, next },
                } => self.rest().component_next(at, targets, next),
                _ => (self, StepView::More),
            }
        }
    }

    /// The session after a value has been handed to the part on top. With
    /// no part left the session ends with the value. A value that the
    /// part on top does not wait for is dropped.
    pub open spec fn delivered(self, value: ValueView) -> (SessionView, StepView) {
        let s = self.with_carry(None);
        if s.stack.len() == 0 {
            (s, StepView::Done(value))
        } else {
            match (s.stack.last(), value) {
                (FrameView::Transforming { mime }, ValueView::Page(res)) => s.rest().handed(
                    ValueView::Source(
                        match res {
                            Ok(text) => Ok(
                                ResolvedView { body: vstd::utf8::encode_utf8(text), mime },
                            ),
                            Err(e) => Err(ResolverErrorView::ModProblem(Box::new(e))),
                        },
                    ),
                ),
                (
                    FrameView::Page {
                        at,
                        phase: PhaseView::Fetching { targets, next, container, internal },
                    },
                    ValueView::Source(res),
                ) => s.rest().fetch_answered(
                    at,
                    targets,
                    next,
                    container,
                    match res {
                        Ok(r) => Ok((r.body, r.mime.essence_of())),
                        Err(e) => Err(FetchErrorView::ResolverError(e)),
                    },
                ),
                (
                    FrameView::Page {
                        at,
                        phase: PhaseView::Loading { targets, next, props, slot, internal },
                    },
                    ValueView::Source(res),
                ) => s.rest().component_answered(
                    at,
                    targets,
                    next,
                    props,
                    slot,
                    match res {
                        Ok(r) => Ok(r.body),
                        Err(e) => Err(ComponentModErrorView::ResolverError(e)),
                    },
                ),
                (
                    FrameView::Page { at, phase: PhaseView::Nesting { targets, next, fragment } },
                    ValueView::Part(res),
                ) => s.rest().nested_done(at, targets, next, fragment, res),
                _ => (s, StepView::More),
            }
        }
    }

    /// The session after a step without an answer from outside: what
    /// waits to be handed on is handed on, else the page on top goes on.
    pub open spec fn proceeded(self) -> (SessionView, StepView) {
        match self.carry {
            Some(value) => self.delivered(value),
            None => self.advanced(),
        }
    }

    /// The session after `n` steps without an answer from outside, and
    /// what it said at the last of them.
    pub open spec fn run(self, n: nat) -> (SessionView, StepView)
        decreases n,
    {
        if n == 0 {
            (self, StepView::More)
        } else {
            self.run((n - 1) as nat).0.proceeded()
        }
    }

    /// The session after an answer from outside. Told whether the index
    /// page exists, a resolution asks for the index page or for the file
    /// itself. Given the stylesheet that a source compiles to, it hands
    /// that on, or the failure to compile. An answer that the part on top
    /// does not wait for is dropped.
    pub open spec fn resumed(self, reply: ReplyView) -> (SessionView, StepView) {
        if self.stack.len() == 0 || self.carry is Some {
            (self, StepView::More)
        } else {
            match (self.stack.last(), reply) {
                (FrameView::Routing { uri, plain, index }, ReplyView::Exists(found)) => {
                    let path = if found {
                        index
                    } else {
                        plain
                    };
                    (
                        self.rest().pushed(FrameView::Reading { uri, path }),
                        StepView::Ask(RequestView::Read(path)),
                    )
                },
                (FrameView::Reading { uri, path }, ReplyView::Read(res)) => self.rest().read_done(
                    uri,
                    path,
                    res,
                ),
                (FrameView::Compiling { mime }, ReplyView::Compiled(css)) => self.rest().handed(
                    ValueView::Source(compiled(css, mime)),
                ),
                (
                    FrameView::Page {
                        at,
                        phase: PhaseView::Fetching { targets, next, container, internal },
                    },
                    ReplyView::Got(res),
                ) => self.rest().fetch_answered(
                    at,
                    targets,
                    next,
                    container,
                    match res {
                        Ok(remote) => Ok((remote.1, declared_type(remote.0))),
                        Err(RemoteErrorView::Network(m)) => Err(FetchErrorView::Network(m)),
                        Err(RemoteErrorView::Io(m)) => Err(FetchErrorView::IoError(m)),
                    },
                ),
                (
                    FrameView::Page {
                        at,
                        phase: PhaseView::Loading { targets, next, props, slot, internal },
                    },
                    ReplyView::Got(res),
                ) => self.rest().component_answered(
                    at,
                    targets,
                    next,
                    props,
                    slot,
                    match res {
                        Ok(remote) => remote_body(remote.0, remote.1),
                        Err(RemoteErrorView::Network(m)) => Err(ComponentModErrorView::Network(m)),
                        Err(RemoteErrorView::Io(m)) => Err(ComponentModErrorView::IoError(m)),
                    },
                ),
                _ => (self, StepView::More),
            }
        }
    }
}

/// Whether every node of `ids` lies in a store of `len` nodes.
pub open spec fn ids_ok(ids: Seq<usize>, len: nat) -> bool {
    forall|i: int| 0 <= i < ids.len() ==> #[trigger] ids[i] < len
}

/// Whether a page's phase names only nodes of the store.
pub open spec fn phase_ok(phase: PhaseView, len: nat) -> bool {
    match phase {
        PhaseView::Stage => true,
        PhaseView::Fetch { targets, next } => ids_ok(targets, len) && next <= targets.len(),
        PhaseView::Fetching { targets, next, container, internal } => ids_ok(targets, len) && next
            < targets.len(),
        PhaseView::Component { targets, next } => ids_ok(targets, len) && next <= targets.len(),
        PhaseView::Loading { targets, next, props, slot, internal } => ids_ok(targets, len) && next
            < targets.len() && slot < len,
        PhaseView::Nesting { targets, next, fragment } => ids_ok(targets, len) && next
            < targets.len() && fragment < len,
    }
}

/// Whether a part of a session names only nodes of the store, and a page
/// in the middle of a transform stands at a transform of the order.
pub open spec fn frame_ok(frame: FrameView, len: nat) -> bool {
    match frame {
        FrameView::Page { at, phase } => at.root < len && phase_ok(phase, len) && (phase is Stage
            || at.stage < at.mods.len()),
        _ => true,
    }
}

/// Whether a session is sound: the links of its store agree and its parts
/// name only nodes of the store.
pub open spec fn session_ok(s: SessionView) -> bool {
    &&& linked(s.nodes)
    &&& forall|i: int|
        0 <= i < s.stack.len() ==> frame_ok(#[trigger] s.stack[i], s.nodes.len())
}

/// A part stays sound when the store grows.
pub proof fn lemma_frame_ok_grows(frame: FrameView, len: nat, more: nat)
    requires
        frame_ok(frame, len),
        len <= more,
    ensures
        frame_ok(frame, more),
{
    match frame {
        FrameView::Page { at, phase } => {
            match phase {
                PhaseView::Stage => {},
                PhaseView::Fetch { targets, next } => {
                    assert(ids_ok(targets, more));
                },
                PhaseView::Fetching { targets, next, container, internal } => {
                    assert(ids_ok(targets, more));
                },
                PhaseView::Component { targets, next } => {
                    assert(ids_ok(targets, more));
                },
                PhaseView::Loading { targets, next, props, slot, internal } => {
                    assert(ids_ok(targets, more));
                },
                PhaseView::Nesting { targets, next, fragment } => {
                    assert(ids_ok(targets, more));
                },
            }
        },
        _ => {},
    }
}

/// A sound session stays sound when its store is replaced by a larger
/// one whose links agree.
pub proof fn lemma_session_grows(s: SessionView, nodes: Seq<NodeView>)
    requires
        session_ok(s),
        linked(nodes),
        s.nodes.len() <= nodes.len(),
    ensures
        session_ok(s.with_nodes(nodes)),
{
    assert forall|i: int| 0 <= i < s.stack.len() implies frame_ok(
        #[trigger] s.with_nodes(nodes).stack[i],
        nodes.len(),
    ) by {
        lemma_frame_ok_grows(s.stack[i], s.nodes.len(), nodes.len());
    }
}

/// A sound session stays sound with a sound part on top.
pub proof fn lemma_session_pushed(s: SessionView, frame: FrameView)
    requires
        session_ok(s),
        frame_ok(frame, s.nodes.len()),
    ensures
        session_ok(s.pushed(frame)),
{
    assert forall|i: int| 0 <= i < s.pushed(frame).stack.len() implies frame_ok(
        #[trigger] s.pushed(frame).stack[i],
        s.nodes.len(),
    ) by {
        if i < s.stack.len() {
            assert(s.pushed(frame).stack[i] == s.stack[i]);
        }
    }
}

/// A sound session stays sound without the part on top, and that part
/// was sound.
pub proof fn lemma_session_rest(s: SessionView)
    requires
        session_ok(s),
        s.stack.len() > 0,
    ensures
        session_ok(s.rest()),
        frame_ok(s.stack.last(), s.nodes.len()),
{
    assert forall|i: int| 0 <= i < s.rest().stack.len() implies frame_ok(
        #[trigger] s.rest().stack[i],
        s.nodes.len(),
    ) by {
        assert(s.rest().stack[i] == s.stack[i]);
    }
    assert(s.stack.last() == s.stack[s.stack.len() - 1]);
}

/// A sound session stays sound with something to hand on.
pub proof fn lemma_session_held(s: SessionView, value: ValueView)
    requires
        session_ok(s),
    ensures
        session_ok(s.with_carry(Some(value))),
{
    assert forall|i: int| 0 <= i < s.stack.len() implies frame_ok(
        #[trigger] s.with_carry(Some(value)).stack[i],
        s.nodes.len(),
    ) by {
        assert(s.with_carry(Some(value)).stack[i] == s.stack[i]);
    }
}

/// Whether a session is sound does not depend on what waits to be handed
/// on.
pub proof fn lemma_session_carry(s: SessionView)
    requires
        session_ok(s),
    ensures
        session_ok(s.with_carry(None)),
{
    assert forall|i: int| 0 <= i < s.stack.len() implies frame_ok(
        #[trigger] s.with_carry(None).stack[i],
        s.nodes.len(),
    ) by {
        assert(s.with_carry(None).stack[i] == s.stack[i]);
    }
}

/// A session that has not begun: an empty store, no parts.
pub open spec fn fresh(root: Seq<char>, authority: Seq<char>) -> SessionView {
    SessionView {
        root,
        authority,
        nodes: Seq::empty(),
        stack: Seq::empty(),
        carry: None,
    }
}

/// The session that transforms a page with the given transforms: the
/// page is parsed and stands ready for the first of them. A page that is
/// too long for the parser is not parsed: the session has no part, and
/// the reason waits to be handed out.
pub open spec fn page_begun(
    root: Seq<char>,
    authority: Seq<char>,
    uri: UriView,
    mods: Seq<ModKind>,
    html: Seq<char>,
) -> SessionView {
    if fits_parser(html) {
        fresh(root, authority).with_nodes(
            grafted(Seq::empty(), html_document(html), html_document(html).len()),
        ).pushed(
            FrameView::Page {
                at: PageView { root: 0, uri, whole: true, mods, stage: 0 },
                phase: PhaseView::Stage,
            },
        )
    } else {
        fresh(root, authority).with_carry(Some(ValueView::Page(Err(ErrorView::TooLong))))
    }
}

/// The kinds of value that a part ends with.
pub enum ValueKind {
    Source,
    Page,
    Part,
}

/// The kind of a value.
pub open spec fn kind_of(value: ValueView) -> ValueKind {
    match value {
        ValueView::Source(_) => ValueKind::Source,
        ValueView::Page(_) => ValueKind::Page,
        ValueView::Part(_) => ValueKind::Part,
    }
}

/// The kind of value that a page ends with: a page of its own ends as a
/// page, a fragment of another page as a part.
pub open spec fn page_gives(whole: bool) -> ValueKind {
    if whole {
        ValueKind::Page
    } else {
        ValueKind::Part
    }
}

/// The kind of value that a part ends with: a resolution ends with a
/// resource, a page as `page_gives` says.
pub open spec fn gives(frame: FrameView) -> ValueKind {
    match frame {
        FrameView::Page { at, phase } => page_gives(at.whole),
        _ => ValueKind::Source,
    }
}

/// The kind of value that a part waits for from the part above it, if it
/// waits for one: a resolution of a page for the page, a page that
/// handed a link to the resolver for the resource, a page that nests a
/// fragment for the part.
pub open spec fn takes(frame: FrameView) -> Option<ValueKind> {
    match frame {
        FrameView::Transforming { mime } => Some(ValueKind::Page),
        FrameView::Page {
            at,
            phase: PhaseView::Fetching { targets, next, container, internal },
        } => if internal {
            Some(ValueKind::Source)
        } else {
            None
        },
        FrameView::Page {
            at,
            phase: PhaseView::Loading { targets, next, props, slot, internal },
        } => if internal {
            Some(ValueKind::Source)
        } else {
            None
        },
        FrameView::Page { at, phase: PhaseView::Nesting { targets, next, fragment } } => Some(
            ValueKind::Part,
        ),
        _ => None,
    }
}

/// Whether a stack, or a stack to be, waits for a value of the given
/// kind: it has no part, or the part on top waits for that kind.
pub open spec fn waits_for(stack: Seq<FrameView>, kind: ValueKind) -> bool {
    stack.len() == 0 || takes(stack.last()) == Some(kind)
}

/// Whether each part of a stack waits for what the part above it ends
/// with.
pub open spec fn stacked(stack: Seq<FrameView>) -> bool {
    forall|i: int|
        1 <= i < stack.len() ==> takes(stack[i - 1]) == Some(gives(#[trigger] stack[i]))
}

/// Whether the parts of a session fit together: each part waits for
/// what the part above it ends with; a value that waits to be handed on
/// is of the kind that the part on top waits for; and with no value at
/// hand the part on top waits for none.
pub open spec fn coherent(s: SessionView) -> bool {
    &&& stacked(s.stack)
    &&& match s.carry {
        Some(value) => waits_for(s.stack, kind_of(value)),
        None => s.stack.len() > 0 ==> takes(s.stack.last()) is None,
    }
}

/// Whether a session waits for the answer to the given request: nothing
/// waits to be handed on, and the part on top is a resolution that asked
/// whether that file exists, for the bytes of that file or for a compiled
/// stylesheet, or a page that asked for a resource over the network.
pub open spec fn awaits(s: SessionView, request: RequestView) -> bool {
    &&& s.carry is None
    &&& s.stack.len() > 0
    &&& match (s.stack.last(), request) {
        (FrameView::Routing { uri, plain, index }, RequestView::Exists(path)) => path == index,
        (FrameView::Reading { uri, path }, RequestView::Read(asked)) => asked == path,
        (FrameView::Compiling { mime }, RequestView::Compile(_)) => true,
        (
            FrameView::Page {
                at,
                phase: PhaseView::Fetching { targets, next, container, internal },
            },
            RequestView::Get(_),
        ) => !internal,
        (
            FrameView::Page {
                at,
                phase: PhaseView::Loading { targets, next, props, slot, internal },
            },
            RequestView::Get(_),
        ) => !internal,
        _ => false,
    }
}

} // verus!
