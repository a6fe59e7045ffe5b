//! The resolver: from the URI of a request to the bytes and media type of
//! a resource, with pages transformed on the way.
//!
//! Reading a file, asking whether one exists, fetching over the network
//! and compiling a stylesheet source, which may import other files, are
//! left to the caller. A `Session` says what it needs next,
//! takes the answer, and goes on until the resource is there. Between two
//! questions it works in steps, each of which ends by saying whether there
//! is more to do.

use vstd::prelude::*;
pub use crate::error::{ResolverError, ResolverErrorView};
use crate::error::{
    ComponentModError, ComponentModErrorView, Error, ErrorView, FetchError, FetchErrorView,
};
use crate::html::attr::{Uri, UriPartsError, UriView};
use crate::html::dom::{linked, Document};
use crate::html::markup::markup;
use crate::html::mods::component::{ComponentData, ComponentJob, Props};
use crate::html::mods::fetch::{fetched, Container, FetchJob, FetchResponse};
use crate::html::mods::{pipeline, HtmlModManager, ModKind};
use crate::mediatype::{GetMediaType, MediaType};
use crate::text::{chars_of, string_of};

pub mod laws;
pub mod model;

pub use model::{
    awaits, compiled, frame_ok, fresh, ids_ok, index_path, is_scss, page_begun, phase_ok,
    plain_path, rehomed, routing, session_ok, stripped, FrameView, PageView,
    PhaseView, RemoteErrorView, ReplyView, RequestView, ResolvedView, SessionView, StepView,
    ValueView,
};
use model::{
    lemma_session_carry, lemma_session_grows, lemma_session_held, lemma_session_pushed,
    lemma_session_rest,
};

verus! {

/// Where the resolver looks for files, and the authority under which it
/// serves them.
#[derive(Clone, Debug)]
pub struct SourceResolver {
    /// The directory that is served.
    pub root: String,
    /// Host and port that pages are served under.
    pub authority: String,
}

/// A resolved resource.
#[derive(Debug)]
pub struct Resolved {
    /// The bytes of the body.
    pub body: Vec<u8>,
    /// The media type.
    pub mime: MediaType,
}

impl View for Resolved {
    type V = ResolvedView;

    open spec fn view(&self) -> ResolvedView {
        ResolvedView { body: self.body@, mime: self.mime }
    }
}

/// What a session needs from outside.
#[derive(Debug)]
pub enum Request {
    /// Whether a file of this path exists.
    Exists(String),
    /// The bytes of the file of this path.
    Read(String),
    /// The resource of this URI, fetched over the network.
    Get(String),
    /// The stylesheet that these bytes, a stylesheet source, compile to.
    Compile(Vec<u8>),
}

impl View for Request {
    type V = RequestView;

    open spec fn view(&self) -> RequestView {
        match self {
            Request::Exists(p) => RequestView::Exists(p@),
            Request::Read(p) => RequestView::Read(p@),
            Request::Get(u) => RequestView::Get(u@),
            Request::Compile(bytes) => RequestView::Compile(bytes@),
        }
    }
}

/// Why a file could not be read.
#[derive(Clone, Copy, Debug, PartialEq, Eq, Structural)]
pub enum ReadError {
    /// There is no such file.
    NotFound,
    /// Any other failure.
    Other,
}

/// What came back over the network.
#[derive(Debug)]
pub struct Remote {
    /// The content type that the response declares, without parameters.
    pub content_type: String,
    /// The bytes of the body.
    pub body: Vec<u8>,
}

/// Why nothing came back over the network.
#[derive(Debug)]
pub enum RemoteError {
    /// The request failed.
    Network(String),
    /// The body could not be read.
    Io(String),
}

/// The answer to a request.
#[derive(Debug)]
pub enum Reply {
    /// Whether the file exists.
    Exists(bool),
    /// The bytes of the file.
    Read(Result<Vec<u8>, ReadError>),
    /// The response to the fetch.
    Got(Result<Remote, RemoteError>),
    /// The compiled stylesheet; none where the source does not compile.
    Compiled(Option<Vec<u8>>),
}

impl View for RemoteError {
    type V = RemoteErrorView;

    open spec fn view(&self) -> RemoteErrorView {
        match self {
            RemoteError::Network(m) => RemoteErrorView::Network(m@),
            RemoteError::Io(m) => RemoteErrorView::Io(m@),
        }
    }
}

impl View for Reply {
    type V = ReplyView;

    open spec fn view(&self) -> ReplyView {
        match self {
            Reply::Exists(b) => ReplyView::Exists(*b),
            Reply::Read(Ok(bytes)) => ReplyView::Read(Ok(bytes@)),
            Reply::Read(Err(e)) => ReplyView::Read(Err(*e)),
            Reply::Got(Ok(remote)) => ReplyView::Got(Ok((remote.content_type@, remote.body@))),
            Reply::Got(Err(e)) => ReplyView::Got(Err(e@)),
            Reply::Compiled(Some(css)) => ReplyView::Compiled(Some(css@)),
            Reply::Compiled(None) => ReplyView::Compiled(None),
        }
    }
}

/// What a part of a session ends with and hands to the part that waits
/// for it. The last part to end hands its outcome to the caller.
#[derive(Debug)]
pub enum Outcome {
    /// The result of resolving a URI.
    Source(Result<Resolved, ResolverError>),
    /// The result of transforming a page: its markup.
    Page(Result<String, Error>),
    /// The result of transforming a fragment, which stays in the store.
    /// No session that this module starts ends with it.
    Part(Result<(), Error>),
}

impl View for Outcome {
    type V = ValueView;

    open spec fn view(&self) -> ValueView {
        match self {
            Outcome::Source(Ok(r)) => ValueView::Source(Ok(r@)),
            Outcome::Source(Err(e)) => ValueView::Source(Err(e@)),
            Outcome::Page(Ok(text)) => ValueView::Page(Ok(text@)),
            Outcome::Page(Err(e)) => ValueView::Page(Err(e@)),
            Outcome::Part(Ok(_)) => ValueView::Part(Ok(())),
            Outcome::Part(Err(e)) => ValueView::Part(Err(e@)),
        }
    }
}

/// What a session says after a step.
#[derive(Debug)]
pub enum Step {
    /// It needs the answer to a request: go on with `resume`.
    Ask(Request),
    /// It has more to do: go on with `proceed`.
    More,
    /// It has ended.
    Done(Outcome),
}

impl View for Step {
    type V = StepView;

    open spec fn view(&self) -> StepView {
        match self {
            Step::Ask(r) => StepView::Ask(r@),
            Step::More => StepView::More,
            Step::Done(o) => StepView::Done(o@),
        }
    }
}

/// Where a page stands in its current transform.
enum Phase {
    /// About to begin the transform at the page's position in the order.
    Stage,
    /// In the fetch transform, about to look at `targets[next]`.
    Fetch { targets: Vec<usize>, next: usize },
    /// Waiting for the resource of `targets[next]`, from the resolver
    /// where `internal` is set and over the network where it is not.
    Fetching { targets: Vec<usize>, next: usize, container: Container, internal: bool },
    /// In the component transform, about to look at `targets[next]`.
    Component { targets: Vec<usize>, next: usize },
    /// Waiting for the component of `targets[next]`.
    Loading { targets: Vec<usize>, next: usize, props: Props, slot: usize, internal: bool },
    /// Waiting for the transforms to run over the fragment that will
    /// replace `targets[next]`.
    Nesting { targets: Vec<usize>, next: usize, fragment: usize },
}

impl View for Phase {
    type V = PhaseView;

    closed spec fn view(&self) -> PhaseView {
        match self {
            Phase::Stage => PhaseView::Stage,
            Phase::Fetch { targets, next } => PhaseView::Fetch { targets: targets@, next: *next },
            Phase::Fetching { targets, next, container, internal } => PhaseView::Fetching {
                targets: targets@,
                next: *next,
                container: *container,
                internal: *internal,
            },
            Phase::Component { targets, next } => PhaseView::Component {
                targets: targets@,
                next: *next,
            },
            Phase::Loading { targets, next, props, slot, internal } => PhaseView::Loading {
                targets: targets@,
                next: *next,
                props: props@,
                slot: *slot,
                internal: *internal,
            },
            Phase::Nesting { targets, next, fragment } => PhaseView::Nesting {
                targets: targets@,
                next: *next,
                fragment: *fragment,
            },
        }
    }
}

/// A page or fragment that is being transformed.
struct Page {
    /// The node that the transforms work under.
    root: usize,
    /// The URI of the page, against which links are resolved.
    uri: Uri,
    /// Whether this is a page of its own, which ends as markup, or a
    /// fragment of another page, which stays in the store.
    whole: bool,
    /// The transforms that run over it, in their order.
    mods: Vec<ModKind>,
    /// The position in the order of the transform that runs or runs next.
    stage: usize,
}

impl View for Page {
    type V = PageView;

    closed spec fn view(&self) -> PageView {
        PageView {
            root: self.root,
            uri: self.uri@,
            whole: self.whole,
            mods: self.mods@,
            stage: self.stage,
        }
    }
}

/// One part of a session. The parts stand on a stack: the one on top is
/// at work, and each of the others waits for the one above it.
enum Frame {
    /// Resolving `uri`: waiting to hear whether `index` exists.
    Routing { uri: Uri, plain: String, index: String },
    /// Resolving `uri`: waiting for the bytes of the file `path`.
    Reading { uri: Uri, path: String },
    /// Resolving a page: waiting for its transforms.
    Transforming { mime: MediaType },
    /// Resolving a stylesheet source: waiting for the stylesheet.
    Compiling { mime: MediaType },
    /// Transforming a page or fragment.
    Page { at: Page, phase: Phase },
}

impl View for Frame {
    type V = FrameView;

    closed spec fn view(&self) -> FrameView {
        match self {
            Frame::Routing { uri, plain, index } => FrameView::Routing {
                uri: uri@,
                plain: plain@,
                index: index@,
            },
            Frame::Reading { uri, path } => FrameView::Reading { uri: uri@, path: path@ },
            Frame::Transforming { mime } => FrameView::Transforming { mime: *mime },
            Frame::Compiling { mime } => FrameView::Compiling { mime: *mime },
            Frame::Page { at, phase } => FrameView::Page { at: at@, phase: phase@ },
        }
    }
}

/// A running resolution.
pub struct Session {
    resolver: SourceResolver,
    doc: Document,
    stack: Vec<Frame>,
    carry: Option<Outcome>,
}

impl View for Session {
    type V = SessionView;

    closed spec fn view(&self) -> SessionView {
        SessionView {
            root: self.resolver.root@,
            authority: self.resolver.authority@,
            nodes: self.doc@,
            stack: self.stack@.map_values(|f: Frame| f@),
            carry: match self.carry {
                Some(v) => Some(v@),
                None => None,
            },
        }
    }
}

/// What comes of compiling a stylesheet source: the stylesheet under the
/// media type of the file, or the failure to compile.
pub fn compiled_source(css: Option<Vec<u8>>, mime: MediaType) -> (out: Result<
    Resolved,
    ResolverError,
>)
    ensures
        match out {
            Ok(r) => css is Some && r@ == (ResolvedView { body: css.unwrap()@, mime }),
            Err(e) => css is None && e@ == ResolverErrorView::ParseAsMime,
        },
{
    match css {
        Some(css) => Ok(Resolved { body: css, mime }),
        None => Err(ResolverError::ParseAsMime),
    }
}

/// Moves a URI to the scheme `http` and the given authority.
pub fn rehome(uri: &Uri, authority: &str) -> (out: Result<Uri, UriPartsError>)
    ensures
        match out {
            Ok(home) => rehomed(uri@, authority@) == Ok::<UriView, UriPartsError>(home@),
            Err(e) => rehomed(uri@, authority@) == Err::<UriView, UriPartsError>(e),
        },
{
    let path_and_query = if uri.path.as_str().unicode_len() == 0 {
        None
    } else {
        Some((uri.path.clone(), crate::html::attr::copy_text(&uri.query)))
    };
    Uri::from_parts(Some("http".to_owned()), Some(authority.to_owned()), path_and_query)
}

/// Tests whether a URI path names a stylesheet source.
pub fn scss(path: &str) -> (out: bool)
    ensures
        out == is_scss(path@),
{
    match crate::path::extension_of_text(path) {
        Some(ext) => crate::text::same_text(crate::text::lower(ext.as_str()).as_str(), "scss"),
        None => false,
    }
}

impl SourceResolver {
    /// A resolver that serves `root` under `authority`.
    pub fn new(root: String, authority: String) -> (out: SourceResolver)
        ensures
            out.root@ == root@,
            out.authority@ == authority@,
    {
        SourceResolver { root, authority }
    }

    /// The two files that a URI may name: the file itself and the index
    /// page of the directory of that name.
    pub fn get_path_from_uri(&self, uri: &Uri) -> (out: (String, String))
        ensures
            out.0@ == plain_path(self.root@, uri@.path),
            out.1@ == index_path(self.root@, uri@.path),
    {
        let path = chars_of(uri.path.as_str());
        let name = if path.len() > 0 && path[0] <= '\x7f' {
            let rest = crate::text::cut(&path, 1, path.len());
            assert(rest@ == path@.skip(1));
            rest
        } else {
            Vec::new()
        };
        let plain = crate::path::join(&chars_of(self.root.as_str()), &name);
        let index = crate::path::join(&plain, &chars_of("index.html"));
        (string_of(&plain), string_of(&index))
    }

    /// A copy of the resolver.
    pub fn copy(&self) -> (out: SourceResolver)
        ensures
            out.root@ == self.root@,
            out.authority@ == self.authority@,
    {
        SourceResolver { root: self.root.clone(), authority: self.authority.clone() }
    }
}

impl Session {
    /// Whether the session is sound.
    pub open spec fn wf(&self) -> bool {
        session_ok(self@)
    }

    /// Takes the part on top off the stack.
    fn pop(&mut self) -> (out: Frame)
        requires
            old(self)@.stack.len() > 0,
        ensures
            final(self)@ == old(self)@.rest(),
            out@ == old(self)@.stack.last(),
    {
        let out = self.stack.pop().unwrap();
        assert(self@.stack =~= old(self)@.stack.drop_last());
        out
    }

    /// Puts a part on top of the stack.
    fn push(&mut self, frame: Frame)
        ensures
            final(self)@ == old(self)@.pushed(frame@),
    {
        self.stack.push(frame);
        assert(self@.stack =~= old(self)@.stack.push(frame@));
    }

    /// Leaves a value for the part on top.
    fn give(&mut self, value: Outcome) -> (step: Step)
        ensures
            final(self)@ == old(self)@.with_carry(Some(value@)),
            step@ == StepView::More,
    {
        self.carry = Some(value);
        Step::More
    }

    /// Takes what waits to be handed on.
    fn take(&mut self) -> (out: Option<Outcome>)
        ensures
            final(self)@ == old(self)@.with_carry(None),
            match out {
                Some(v) => old(self)@.carry == Some(v@),
                None => old(self)@.carry is None,
            },
    {
        let mut out: Option<Outcome> = None;
        core::mem::swap(&mut self.carry, &mut out);
        out
    }

    /// Begins to resolve `uri` on top of what the session holds.
    fn route(&mut self, uri: Uri) -> (step: Step)
        ensures
            final(self)@ == old(self)@.pushed(routing(old(self)@.root, uri@)),
            step@ == StepView::Ask(RequestView::Exists(index_path(old(self)@.root, uri@.path))),
    {
        let paths = self.resolver.get_path_from_uri(&uri);
        let ask = paths.1.clone();
        self.push(Frame::Routing { uri, plain: paths.0, index: paths.1 });
        Step::Ask(Request::Exists(ask))
    }
}

/// The result of reading a file, over sequences.
pub open spec fn read_view(res: Result<Vec<u8>, ReadError>) -> Result<Seq<u8>, ReadError> {
    match res {
        Ok(bytes) => Ok(bytes@),
        Err(e) => Err(e),
    }
}

/// A response to a fetch, or the failure, over sequences.
pub open spec fn response_view(res: Result<FetchResponse, FetchError>) -> Result<
    (Seq<u8>, Seq<char>),
    FetchErrorView,
> {
    match res {
        Ok(r) => Ok((r.body@, r.mime@)),
        Err(e) => Err(e@),
    }
}

/// The body of a component, or the failure, over sequences.
pub open spec fn body_view(res: Result<Vec<u8>, ComponentModError>) -> Result<
    Seq<u8>,
    ComponentModErrorView,
> {
    match res {
        Ok(b) => Ok(b@),
        Err(e) => Err(e@),
    }
}

/// The result of transforming a fragment, over sequences.
pub open spec fn part_view(res: Result<(), Error>) -> Result<(), ErrorView> {
    match res {
        Ok(_) => Ok(()),
        Err(e) => Err(e@),
    }
}

impl Session {
    /// Hands on the failure of a page.
    fn fail_page(&mut self, whole: bool, e: Error) -> (step: Step)
        ensures
            (final(self)@, step@) == old(self)@.page_failed(whole, e@),
    {
        if whole {
            self.give(Outcome::Page(Err(e)))
        } else {
            self.give(Outcome::Part(Err(e)))
        }
    }

    /// Hands on a page that has run all its transforms.
    fn finish_page(&mut self, at: Page) -> (step: Step)
        requires
            linked(old(self)@.nodes),
            at@.root < old(self)@.nodes.len(),
        ensures
            (final(self)@, step@) == old(self)@.page_done(at@),
    {
        if at.whole {
            let text = self.doc.render(at.root);
            self.give(Outcome::Page(Ok(text)))
        } else {
            self.give(Outcome::Part(Ok(())))
        }
    }

    /// Goes on after the file of a resolution has been read, or not.
    fn read_done(&mut self, uri: Uri, path: String, res: Result<Vec<u8>, ReadError>) -> (step: Step)
        requires
            old(self).wf(),
        ensures
            final(self).wf(),
            (final(self)@, step@) == old(self)@.read_done(uri@, path@, read_view(res)),
    {
        let ghost s = self@;
        let ghost rv = read_view(res);
        let bytes = match res {
            Err(ReadError::NotFound) => {
                let step = self.give(Outcome::Source(Err(ResolverError::NotFound)));
                assert((self@, step@) == s.read_done(uri@, path@, rv));
                return step;
            },
            Err(ReadError::Other) => {
                let step = self.give(Outcome::Source(Err(ResolverError::ServerIssue)));
                assert((self@, step@) == s.read_done(uri@, path@, rv));
                return step;
            },
            Ok(bytes) => bytes,
        };
        let mime = match path.as_str().get_media_type() {
            None => {
                let step = self.give(Outcome::Source(Err(ResolverError::NoMimeFound)));
                assert((self@, step@) == s.read_done(uri@, path@, rv));
                return step;
            },
            Some(mime) => mime,
        };
        let home = match rehome(&uri, self.resolver.authority.as_str()) {
            Err(e) => {
                let step = self.give(Outcome::Source(Err(ResolverError::InvalidUriParts(e))));
                assert((self@, step@) == s.read_done(uri@, path@, rv));
                return step;
            },
            Ok(home) => home,
        };
        if mime == MediaType::Html {
            let text = match crate::html::mods::fetch::utf8_text(bytes) {
                None => {
                    let step = self.give(Outcome::Source(Err(ResolverError::WasNotUtf8)));
                    assert((self@, step@) == s.read_done(uri@, path@, rv));
                    return step;
                },
                Some(text) => text,
            };
            let root = match self.doc.parse_html(text.as_str()) {
                None => {
                    let step = self.give(Outcome::Source(Err(ResolverError::ParseAsMime)));
                    assert((self@, step@) == s.read_done(uri@, path@, rv));
                    return step;
                },
                Some(root) => root,
            };
            proof {
                lemma_session_grows(s, self@.nodes);
            }
            self.push(Frame::Transforming { mime });
            proof {
                lemma_session_pushed(s.with_nodes(self@.nodes), FrameView::Transforming { mime });
            }
            let ghost mid = self@;
            let frame = Frame::Page {
                at: Page { root, uri: home, whole: true, mods: standard_mods(), stage: 0 },
                phase: Phase::Stage,
            };
            self.push(frame);
            proof {
                lemma_session_pushed(mid, frame@);
            }
            assert((self@, StepView::More) == s.read_done(uri@, path@, rv));
            Step::More
        } else if scss(uri.path.as_str()) {
            let frame = Frame::Compiling { mime };
            proof {
                lemma_session_pushed(s, frame@);
            }
            self.push(frame);
            Step::Ask(Request::Compile(bytes))
        } else {
            let step = self.give(Outcome::Source(Ok(Resolved { body: bytes, mime })));
            assert((self@, step@) == s.read_done(uri@, path@, rv));
            step
        }
    }

    /// Goes on after the resource for a fetch has come back, or not.
    fn fetch_answered(
        &mut self,
        at: Page,
        targets: Vec<usize>,
        next: usize,
        container: Container,
        res: Result<FetchResponse, FetchError>,
    ) -> (step: Step)
        requires
            old(self).wf(),
            at@.root < old(self)@.nodes.len(),
            at@.stage < at@.mods.len(),
            ids_ok(targets@, old(self)@.nodes.len()),
            next < targets@.len(),
        ensures
            final(self).wf(),
            (final(self)@, step@) == old(self)@.fetch_answered(
                at@,
                targets@,
                next,
                container,
                response_view(res),
            ),
    {
        let ghost s = self@;
        match res {
            Err(e) => self.fail_page(at.whole, Error::Fetch(e)),
            Ok(resp) => {
                let fetch = crate::html::mods::fetch::Mod::new(at.uri.copy());
                match fetch.insert_fetched(&mut self.doc, container, resp) {
                    Err(e) => {
                        proof {
                            lemma_session_grows(s, self@.nodes);
                        }
                        self.fail_page(at.whole, Error::Fetch(e))
                    },
                    Ok(el) => {
                        crate::html::mods::fetch::replace(&mut self.doc, targets[next], el);
                        proof {
                            lemma_session_grows(s, self@.nodes);
                        }
                        let ghost mid = self@;
                        let count = targets.len();
                        let frame = Frame::Page {
                            at,
                            phase: Phase::Fetch { targets, next: next + 1 },
                        };
                        proof {
                            assert(ids_ok(targets@, mid.nodes.len()));
                            lemma_session_pushed(mid, frame@);
                        }
                        self.push(frame);
                        Step::More
                    },
                }
            },
        }
    }

    /// Goes on after the body of a component has come back, or not.
    fn component_answered(
        &mut self,
        at: Page,
        targets: Vec<usize>,
        next: usize,
        data: ComponentData,
        res: Result<Vec<u8>, ComponentModError>,
    ) -> (step: Step)
        requires
            old(self).wf(),
            at@.root < old(self)@.nodes.len(),
            at@.stage < at@.mods.len(),
            ids_ok(targets@, old(self)@.nodes.len()),
            next < targets@.len(),
            data.slot < old(self)@.nodes.len(),
        ensures
            final(self).wf(),
            (final(self)@, step@) == old(self)@.component_answered(
                at@,
                targets@,
                next,
                data.props@,
                data.slot,
                body_view(res),
            ),
    {
        let ghost s = self@;
        match res {
            Err(e) => self.fail_page(at.whole, Error::Component(e)),
            Ok(body) => {
                let component = crate::html::mods::component::Mod::new(at.uri.copy());
                match component.expand(&mut self.doc, body, &data) {
                    Err(e) => {
                        proof {
                            lemma_session_grows(s, self@.nodes);
                        }
                        self.fail_page(at.whole, Error::Component(e))
                    },
                    Ok(el) => {
                        proof {
                            lemma_session_grows(s, self@.nodes);
                        }
                        let ghost mid = self@;
                        let inner = Frame::Page {
                            at: Page {
                                root: el,
                                uri: at.uri.copy(),
                                whole: false,
                                mods: copy_mods(&at.mods),
                                stage: 0,
                            },
                            phase: Phase::Stage,
                        };
                        let outer = Frame::Page {
                            at,
                            phase: Phase::Nesting { targets, next, fragment: el },
                        };
                        proof {
                            assert(ids_ok(targets@, mid.nodes.len()));
                            lemma_session_pushed(mid, outer@);
                            lemma_session_pushed(mid.pushed(outer@), inner@);
                        }
                        self.push(outer);
                        self.push(inner);
                        Step::More
                    },
                }
            },
        }
    }

    /// Goes on after the transforms have run over a component's fragment.
    fn nested_done(
        &mut self,
        at: Page,
        targets: Vec<usize>,
        next: usize,
        fragment: usize,
        res: Result<(), Error>,
    ) -> (step: Step)
        requires
            old(self).wf(),
            at@.root < old(self)@.nodes.len(),
            at@.stage < at@.mods.len(),
            ids_ok(targets@, old(self)@.nodes.len()),
            next < targets@.len(),
            fragment < old(self)@.nodes.len(),
        ensures
            final(self).wf(),
            (final(self)@, step@) == old(self)@.nested_done(
                at@,
                targets@,
                next,
                fragment,
                part_view(res),
            ),
    {
        let ghost s = self@;
        match res {
            Err(e) => self.fail_page(at.whole, e),
            Ok(_) => {
                crate::html::mods::fetch::replace(&mut self.doc, targets[next], fragment);
                proof {
                    lemma_session_grows(s, self@.nodes);
                }
                let ghost mid = self@;
                let count = targets.len();
                let frame = Frame::Page { at, phase: Phase::Component { targets, next: next + 1 } };
                proof {
                    assert(ids_ok(targets@, mid.nodes.len()));
                    lemma_session_pushed(mid, frame@);
                }
                self.push(frame);
                Step::More
            },
        }
    }
}

impl Page {
    /// The page at the next transform of the order.
    fn onward(self) -> (out: Page)
        requires
            self@.stage < usize::MAX,
        ensures
            out@ == self@.onward(),
    {
        Page {
            root: self.root,
            uri: self.uri,
            whole: self.whole,
            mods: self.mods,
            stage: self.stage + 1,
        }
    }
}

impl Session {
    /// Begins the transform at the page's position in the order.
    fn staged(&mut self, at: Page) -> (step: Step)
        requires
            old(self).wf(),
            at@.root < old(self)@.nodes.len(),
        ensures
            final(self).wf(),
            (final(self)@, step@) == old(self)@.staged(at@),
    {
        let ghost s = self@;
        if at.stage >= at.mods.len() {
            return self.finish_page(at);
        }
        match at.mods[at.stage] {
            ModKind::Fetch => {
                let fetch = crate::html::mods::fetch::Mod::new(at.uri.copy());
                let targets = fetch.targets(&self.doc, at.root);
                let frame = Frame::Page { at, phase: Phase::Fetch { targets, next: 0 } };
                proof {
                    lemma_session_pushed(s, frame@);
                }
                self.push(frame);
                Step::More
            },
            ModKind::Css => {
                let css = crate::html::mods::css::Mod;
                match css.modify(&mut self.doc, at.root) {
                    Err(e) => {
                        proof {
                            lemma_session_grows(s, self@.nodes);
                        }
                        self.fail_page(at.whole, Error::Css(e))
                    },
                    Ok(_) => {
                        proof {
                            lemma_session_grows(s, self@.nodes);
                        }
                        let ghost mid = self@;
                        let frame = Frame::Page { at: at.onward(), phase: Phase::Stage };
                        proof {
                            lemma_session_pushed(mid, frame@);
                        }
                        self.push(frame);
                        Step::More
                    },
                }
            },
            ModKind::Component => {
                let component = crate::html::mods::component::Mod::new(at.uri.copy());
                let targets = component.targets(&self.doc, at.root);
                let frame = Frame::Page { at, phase: Phase::Component { targets, next: 0 } };
                proof {
                    lemma_session_pushed(s, frame@);
                }
                self.push(frame);
                Step::More
            },
        }
    }

    /// Looks at the next element of the fetch transform.
    fn fetch_next(&mut self, at: Page, targets: Vec<usize>, next: usize) -> (step: Step)
        requires
            old(self).wf(),
            at@.root < old(self)@.nodes.len(),
            at@.stage < at@.mods.len(),
            ids_ok(targets@, old(self)@.nodes.len()),
            next <= targets@.len(),
        ensures
            final(self).wf(),
            (final(self)@, step@) == old(self)@.fetch_next(at@, targets@, next),
    {
        let ghost s = self@;
        let count = at.mods.len();
        if next >= targets.len() {
            let frame = Frame::Page { at: at.onward(), phase: Phase::Stage };
            proof {
                lemma_session_pushed(s, frame@);
            }
            self.push(frame);
            return Step::More;
        }
        let fetch = crate::html::mods::fetch::Mod::new(at.uri.copy());
        match fetch.plan(&self.doc, targets[next]) {
            FetchJob::Skip => {
                let frame = Frame::Page { at, phase: Phase::Fetch { targets, next: next + 1 } };
                proof {
                    lemma_session_pushed(s, frame@);
                }
                self.push(frame);
                Step::More
            },
            FetchJob::Fail(e) => self.fail_page(at.whole, Error::Fetch(e)),
            FetchJob::Internal(uri, container) => {
                let frame = Frame::Page {
                    at,
                    phase: Phase::Fetching { targets, next, container, internal: true },
                };
                proof {
                    lemma_session_pushed(s, frame@);
                    lemma_session_pushed(s.pushed(frame@), routing(s.root, uri@));
                }
                self.push(frame);
                self.route(uri)
            },
            FetchJob::External(uri, container) => {
                let frame = Frame::Page {
                    at,
                    phase: Phase::Fetching { targets, next, container, internal: false },
                };
                proof {
                    lemma_session_pushed(s, frame@);
                }
                self.push(frame);
                Step::Ask(Request::Get(uri.text()))
            },
        }
    }

    /// Looks at the next element of the component transform.
    fn component_next(&mut self, at: Page, targets: Vec<usize>, next: usize) -> (step: Step)
        requires
            old(self).wf(),
            at@.root < old(self)@.nodes.len(),
            at@.stage < at@.mods.len(),
            ids_ok(targets@, old(self)@.nodes.len()),
            next <= targets@.len(),
        ensures
            final(self).wf(),
            (final(self)@, step@) == old(self)@.component_next(at@, targets@, next),
    {
        let ghost s = self@;
        let count = at.mods.len();
        if next >= targets.len() {
            let frame = Frame::Page { at: at.onward(), phase: Phase::Stage };
            proof {
                lemma_session_pushed(s, frame@);
            }
            self.push(frame);
            return Step::More;
        }
        let component = crate::html::mods::component::Mod::new(at.uri.copy());
        let planned = component.plan(&mut self.doc, targets[next]);
        let data = planned.0;
        proof {
            lemma_session_grows(s, self@.nodes);
            assert(ids_ok(targets@, self@.nodes.len()));
        }
        let ghost read = self@;
        match planned.1 {
            ComponentJob::Skip => {
                let frame = Frame::Page { at, phase: Phase::Component { targets, next: next + 1 } };
                proof {
                    lemma_session_pushed(read, frame@);
                }
                self.push(frame);
                Step::More
            },
            ComponentJob::Fail(e) => self.fail_page(at.whole, Error::Component(e)),
            ComponentJob::Internal(uri) => {
                let frame = Frame::Page {
                    at,
                    phase: Phase::Loading {
                        targets,
                        next,
                        props: data.props,
                        slot: data.slot,
                        internal: true,
                    },
                };
                proof {
                    lemma_session_pushed(read, frame@);
                    lemma_session_pushed(read.pushed(frame@), routing(s.root, uri@));
                }
                self.push(frame);
                self.route(uri)
            },
            ComponentJob::External(uri) => {
                let frame = Frame::Page {
                    at,
                    phase: Phase::Loading {
                        targets,
                        next,
                        props: data.props,
                        slot: data.slot,
                        internal: false,
                    },
                };
                proof {
                    lemma_session_pushed(read, frame@);
                }
                self.push(frame);
                Step::Ask(Request::Get(uri.text()))
            },
        }
    }

    /// Lets the page on top do its next piece of work.
    fn advance(&mut self) -> (step: Step)
        requires
            old(self).wf(),
        ensures
            final(self).wf(),
            (final(self)@, step@) == old(self)@.advanced(),
    {
        let ghost s = self@;
        if self.stack.len() == 0 {
            return Step::More;
        }
        proof {
            lemma_session_rest(s);
        }
        match self.pop() {
            Frame::Page { at, phase: Phase::Stage } => self.staged(at),
            Frame::Page { at, phase: Phase::Fetch { targets, next } } => self.fetch_next(
                at,
                targets,
                next,
            ),
            Frame::Page { at, phase: Phase::Component { targets, next } } => self.component_next(
                at,
                targets,
                next,
            ),
            other => {
                self.push(other);
                assert(self@.stack =~= s.stack);
                Step::More
            },
        }
    }

    /// Hands a value to the part on top.
    fn deliver(&mut self, value: Outcome) -> (step: Step)
        requires
            old(self).wf(),
            old(self)@.carry is None,
        ensures
            final(self).wf(),
            (final(self)@, step@) == old(self)@.delivered(value@),
    {
        let ghost s = self@;
        assert(s.with_carry(None) == s);
        if self.stack.len() == 0 {
            return Step::Done(value);
        }
        proof {
            lemma_session_rest(s);
        }
        let frame = self.pop();
        match (frame, value) {
            (Frame::Transforming { mime }, Outcome::Page(res)) => {
                let out = match res {
                    Ok(text) => Ok(Resolved { body: text.as_str().as_bytes_vec(), mime }),
                    Err(e) => Err(ResolverError::ModProblem(Box::new(e))),
                };
                self.give(Outcome::Source(out))
            },
            (
                Frame::Page { at, phase: Phase::Fetching { targets, next, container, internal } },
                Outcome::Source(res),
            ) => {
                let answer = match res {
                    Ok(r) => Ok(
                        FetchResponse {
                            body: r.body,
                            mime: crate::mediatype::MediaTypeBuf::of(r.mime),
                        },
                    ),
                    Err(e) => Err(FetchError::ResolverError(e)),
                };
                self.fetch_answered(at, targets, next, container, answer)
            },
            (
                Frame::Page { at, phase: Phase::Loading { targets, next, props, slot, internal } },
                Outcome::Source(res),
            ) => {
                let answer = match res {
                    Ok(r) => Ok(r.body),
                    Err(e) => Err(ComponentModError::ResolverError(e)),
                };
                self.component_answered(at, targets, next, ComponentData { props, slot }, answer)
            },
            (
                Frame::Page { at, phase: Phase::Nesting { targets, next, fragment } },
                Outcome::Part(res),
            ) => self.nested_done(at, targets, next, fragment, res),
            (other, _) => {
                self.push(other);
                assert(self@.stack =~= s.stack);
                Step::More
            },
        }
    }

    /// Goes on without an answer from outside: what waits to be handed
    /// on is handed on, else the page on top does its next piece of work.
    /// Call this after the session has said `More`.
    pub fn proceed(&mut self) -> (step: Step)
        requires
            old(self).wf(),
        ensures
            final(self).wf(),
            (final(self)@, step@) == old(self)@.proceeded(),
    {
        let ghost s = self@;
        match self.take() {
            Some(value) => {
                proof {
                    lemma_session_carry(s);
                    assert(s.with_carry(None).delivered(value@) == s.delivered(value@));
                }
                self.deliver(value)
            },
            None => {
                assert(self@ == s);
                self.advance()
            },
        }
    }

    /// Goes on with the answer to the request that the session made. An
    /// answer that does not fit the request is dropped.
    pub fn resume(&mut self, reply: Reply) -> (step: Step)
        requires
            old(self).wf(),
        ensures
            final(self).wf(),
            (final(self)@, step@) == old(self)@.resumed(reply@),
    {
        let ghost s = self@;
        if self.stack.len() == 0 || self.carry.is_some() {
            assert((self@, StepView::More) == s.resumed(reply@));
            return Step::More;
        }
        proof {
            lemma_session_rest(s);
        }
        let frame = self.pop();
        match (frame, reply) {
            (Frame::Routing { uri, plain, index }, Reply::Exists(found)) => {
                let path = if found {
                    index
                } else {
                    plain
                };
                let ask = path.clone();
                let frame = Frame::Reading { uri, path };
                proof {
                    lemma_session_pushed(s.rest(), frame@);
                }
                self.push(frame);
                assert((self@, StepView::Ask(RequestView::Read(ask@))) == s.resumed(reply@));
                Step::Ask(Request::Read(ask))
            },
            (Frame::Reading { uri, path }, Reply::Read(res)) => {
                let step = self.read_done(uri, path, res);
                assert((self@, step@) == s.resumed(reply@));
                step
            },
            (Frame::Compiling { mime }, Reply::Compiled(css)) => {
                let step = match compiled_source(css, mime) {
                    Ok(r) => self.give(Outcome::Source(Ok(r))),
                    Err(e) => self.give(Outcome::Source(Err(e))),
                };
                assert((self@, step@) == s.resumed(reply@));
                step
            },
            (
                Frame::Page { at, phase: Phase::Fetching { targets, next, container, internal } },
                Reply::Got(res),
            ) => {
                let answer = match res {
                    Ok(remote) => Ok(
                        crate::html::mods::fetch::remote_response(
                            remote.content_type.as_str(),
                            remote.body,
                        ),
                    ),
                    Err(RemoteError::Network(m)) => Err(FetchError::Network(m)),
                    Err(RemoteError::Io(m)) => Err(FetchError::IoError(m)),
                };
                let step = self.fetch_answered(at, targets, next, container, answer);
                assert((self@, step@) == s.resumed(reply@));
                step
            },
            (
                Frame::Page { at, phase: Phase::Loading { targets, next, props, slot, internal } },
                Reply::Got(res),
            ) => {
                let component = crate::html::mods::component::Mod::new(at.uri.copy());
                let answer = match res {
                    Ok(remote) => component.accept_remote(
                        remote.content_type.as_str(),
                        remote.body,
                    ),
                    Err(RemoteError::Network(m)) => Err(ComponentModError::Network(m)),
                    Err(RemoteError::Io(m)) => Err(ComponentModError::IoError(m)),
                };
                let step = self.component_answered(
                    at,
                    targets,
                    next,
                    ComponentData { props, slot },
                    answer,
                );
                assert((self@, step@) == s.resumed(reply@));
                step
            },
            (other, _) => {
                self.push(other);
                assert(self@.stack =~= s.stack);
                assert((self@, StepView::More) == s.resumed(reply@));
                Step::More
            },
        }
    }
}

impl Session {
    /// A session of the given resolver that has not begun.
    fn begin(resolver: &SourceResolver) -> (out: Session)
        ensures
            out.wf(),
            out@ == fresh(resolver.root@, resolver.authority@),
    {
        let out = Session {
            resolver: resolver.copy(),
            doc: Document::new(),
            stack: Vec::new(),
            carry: None,
        };
        assert(out@.stack =~= Seq::empty());
        assert(out@.nodes =~= Seq::empty());
        out
    }
}

impl SourceResolver {
    /// Begins to resolve `uri`: the session asks first whether the index
    /// page of the directory that the URI may name exists. Go on with
    /// `resume` and `proceed` until the session says `Done`: it then
    /// holds the resource or the reason why there is none.
    pub fn resolve_source(&self, uri: &Uri) -> (out: (Session, Step))
        ensures
            out.0.wf(),
            out.0@ == fresh(self.root@, self.authority@).pushed(routing(self.root@, uri@)),
            out.1@ == StepView::Ask(RequestView::Exists(index_path(self.root@, uri@.path))),
    {
        let mut session = Session::begin(self);
        proof {
            lemma_session_pushed(session@, routing(self.root@, uri@));
        }
        let step = session.route(uri.copy());
        (session, step)
    }
}

/// A copy of a list of transforms.
fn copy_mods(mods: &Vec<ModKind>) -> (out: Vec<ModKind>)
    ensures
        out@ == mods@,
{
    let mut out: Vec<ModKind> = Vec::new();
    let mut i: usize = 0;
    while i < mods.len()
        invariant
            i <= mods.len(),
            out@ == mods@.take(i as int),
        decreases mods.len() - i,
    {
        out.push(mods[i]);
        assert(mods@.take(i + 1) == mods@.take(i as int).push(mods@[i as int]));
        i += 1;
    }
    assert(mods@.take(mods.len() as int) == mods@);
    out
}

/// The three transforms of the pipeline, in their order.
fn standard_mods() -> (out: Vec<ModKind>)
    ensures
        out@ == pipeline(),
{
    let mut mods: Vec<ModKind> = Vec::new();
    mods.push(ModKind::Fetch);
    mods.push(ModKind::Css);
    mods.push(ModKind::Component);
    assert(mods@ =~= pipeline());
    mods
}

/// Begins to transform a page with the given transforms.
fn begin_page(resolver: &SourceResolver, uri: &Uri, mods: Vec<ModKind>, html: &str) -> (out: (
    Session,
    Step,
))
    ensures
        out.0.wf(),
        out.0@ == page_begun(resolver.root@, resolver.authority@, uri@, mods@, html@),
        out.1@ == StepView::More,
{
    let mut session = Session::begin(resolver);
    let ghost s = session@;
    let root = match session.doc.parse_html(html) {
        None => {
            let step = session.give(Outcome::Page(Err(Error::TooLong)));
            proof {
                lemma_session_held(s, ValueView::Page(Err(ErrorView::TooLong)));
            }
            return (session, step);
        },
        Some(root) => root,
    };
    proof {
        lemma_session_grows(s, session@.nodes);
    }
    let ghost mid = session@;
    let frame = Frame::Page {
        at: Page { root, uri: uri.copy(), whole: true, mods, stage: 0 },
        phase: Phase::Stage,
    };
    proof {
        lemma_session_pushed(mid, frame@);
    }
    session.push(frame);
    (session, Step::More)
}

/// Begins to transform a page that is at hand as text: the page is parsed
/// and stands ready for the first transform of the pipeline. Links in it
/// are resolved against `uri`. Go on with `proceed` and `resume` until the
/// session says `Done`: it then holds the markup of the transformed page
/// or the reason why there is none. A page that is too long for the
/// parser is not parsed, and the session ends at its first step with
/// that reason.
pub fn process_html(resolver: &SourceResolver, uri: &Uri, html: String) -> (out: (Session, Step))
    ensures
        out.0.wf(),
        out.0@ == page_begun(resolver.root@, resolver.authority@, uri@, pipeline(), html@),
        out.1@ == StepView::More,
{
    begin_page(resolver, uri, standard_mods(), html.as_str())
}

impl HtmlModManager {
    /// Begins to transform a page with the transforms that the manager
    /// has loaded, in their order.
    pub fn apply_mods(&self, resolver: &SourceResolver, html: String) -> (out: (Session, Step))
        ensures
            out.0.wf(),
            out.0@ == page_begun(
                resolver.root@,
                resolver.authority@,
                self.page_uri@,
                self.mods@,
                html@,
            ),
            out.1@ == StepView::More,
    {
        begin_page(resolver, &self.page_uri, copy_mods(&self.mods), html.as_str())
    }

    /// Begins to transform a page with the one transform of the given
    /// name. Where the manager has not loaded a transform of that name,
    /// there is no session, and the error says that the transform does
    /// not exist.
    pub fn apply_mod(&self, resolver: &SourceResolver, html: String, mod_name: &str) -> (out: Result<
        (Session, Step),
        Error,
    >)
        ensures
            match out {
                Ok(begun) => begun.0.wf() && crate::html::mods::mod_named(mod_name@) is Some
                    && self.mods@.contains(crate::html::mods::mod_named(mod_name@).unwrap())
                    && begun.0@ == page_begun(
                    resolver.root@,
                    resolver.authority@,
                    self.page_uri@,
                    seq![crate::html::mods::mod_named(mod_name@).unwrap()],
                    html@,
                ) && begun.1@ == StepView::More,
                Err(e) => e@ == ErrorView::ModMissing && match crate::html::mods::mod_named(
                    mod_name@,
                ) {
                    Some(m) => !self.mods@.contains(m),
                    None => true,
                },
            },
    {
        let wanted = match HtmlModManager::load_mod(mod_name) {
            Some(m) => m,
            None => {
                return Err(Error::ModMissing);
            },
        };
        if !self.has_mod(wanted) {
            return Err(Error::ModMissing);
        }
        let mut one: Vec<ModKind> = Vec::new();
        one.push(wanted);
        assert(one@ =~= seq![wanted]);
        Ok(begin_page(resolver, &self.page_uri, one, html.as_str()))
    }
}

} // verus!
