//! The errors of the resolver and of the transforms. They hold one
//! another, so they stand together.

use vstd::prelude::*;
use crate::html::attr::{Href, HrefView, UriPartsError};
use crate::html::mods::css::{MinifyCssError, MinifyCssErrorView};
use crate::mediatype::MediaTypeBuf;
use crate::text::{chars_of, extend, string_of};

verus! {

/// A media type that cannot be inserted into a page: the type that the
/// response declared.
#[derive(Debug)]
pub struct InsertResponseError(pub MediaTypeBuf);

impl View for InsertResponseError {
    type V = Seq<char>;

    /// The name of the refused type.
    open spec fn view(&self) -> Seq<char> {
        self.0@
    }
}

/// Why the resolver gave no resource.
#[derive(Debug)]
pub enum ResolverError {
    /// The URI could not be moved to the resolver's authority.
    InvalidUriParts(UriPartsError),
    /// The file's name has no extension to go by.
    NoMimeFound,
    /// There is no such file.
    NotFound,
    /// The file could not be read.
    ServerIssue,
    /// A page is not UTF-8.
    WasNotUtf8,
    /// A transform failed on the page.
    ModProblem(Box<Error>),
    /// A resource could not be read as what its media type says: a
    /// stylesheet source that does not compile, a page that is too long
    /// for the parser.
    ParseAsMime,
}

/// Why a page could not be transformed.
#[derive(Debug)]
pub enum Error {
    /// The fetch transform failed.
    Fetch(FetchError),
    /// The css transform failed.
    Css(MinifyCssError),
    /// The component transform failed.
    Component(ComponentModError),
    /// A transform was asked for that is not loaded.
    ModMissing,
    /// The page is too long for the parser.
    TooLong,
}

/// Why a marked element could not be replaced by its resource.
#[derive(Debug)]
pub enum FetchError {
    /// The link names nothing that can be inserted.
    InvalidHref(Href),
    /// What came back cannot be inserted.
    Insertion(InsertResponseError),
    /// The link does not resolve against the page.
    InvalidUriParts(UriPartsError),
    /// The request over the network failed.
    Network(String),
    /// The resolver failed on the link.
    ResolverError(ResolverError),
    /// The body of the response could not be read.
    IoError(String),
}

/// Why a component could not be composed.
#[derive(Debug)]
pub enum ComponentModError {
    /// The link names nothing that can be fetched.
    InvalidHref(Href),
    /// What came back cannot be inserted.
    Insertion(InsertResponseError),
    /// The link does not resolve against the page.
    InvalidUriParts(UriPartsError),
    /// The request over the network failed.
    Network(String),
    /// The resolver failed on the link.
    ResolverError(ResolverError),
    /// The body of the response could not be read.
    IoError(String),
    /// The component is no HTML.
    LinkNotHtml,
}

pub enum ResolverErrorView {
    InvalidUriParts(UriPartsError),
    NoMimeFound,
    NotFound,
    ServerIssue,
    WasNotUtf8,
    ModProblem(Box<ErrorView>),
    ParseAsMime,
}

pub enum ErrorView {
    Fetch(FetchErrorView),
    Css(MinifyCssErrorView),
    Component(ComponentModErrorView),
    ModMissing,
    TooLong,
}

pub enum FetchErrorView {
    InvalidHref(HrefView),
    Insertion(Seq<char>),
    InvalidUriParts(UriPartsError),
    Network(Seq<char>),
    ResolverError(ResolverErrorView),
    IoError(Seq<char>),
}

pub enum ComponentModErrorView {
    InvalidHref(HrefView),
    Insertion(Seq<char>),
    InvalidUriParts(UriPartsError),
    Network(Seq<char>),
    ResolverError(ResolverErrorView),
    IoError(Seq<char>),
    LinkNotHtml,
}

/// A resolver error over sequences of characters.
pub open spec fn resolver_error_view(e: ResolverError) -> ResolverErrorView
    decreases e,
{
    match e {
        ResolverError::InvalidUriParts(p) => ResolverErrorView::InvalidUriParts(p),
        ResolverError::NoMimeFound => ResolverErrorView::NoMimeFound,
        ResolverError::NotFound => ResolverErrorView::NotFound,
        ResolverError::ServerIssue => ResolverErrorView::ServerIssue,
        ResolverError::WasNotUtf8 => ResolverErrorView::WasNotUtf8,
        ResolverError::ModProblem(inner) => ResolverErrorView::ModProblem(
            Box::new(error_view(*inner)),
        ),
        ResolverError::ParseAsMime => ResolverErrorView::ParseAsMime,
    }
}

/// A transform error over sequences of characters.
pub open spec fn error_view(e: Error) -> ErrorView
    decreases e,
{
    match e {
        Error::Fetch(inner) => ErrorView::Fetch(fetch_error_view(inner)),
        Error::Css(inner) => ErrorView::Css(inner@),
        Error::Component(inner) => ErrorView::Component(component_error_view(inner)),
        Error::ModMissing => ErrorView::ModMissing,
        Error::TooLong => ErrorView::TooLong,
    }
}

/// A fetch error over sequences of characters.
pub open spec fn fetch_error_view(e: FetchError) -> FetchErrorView
    decreases e,
{
    match e {
        FetchError::InvalidHref(href) => FetchErrorView::InvalidHref(href@),
        FetchError::Insertion(inner) => FetchErrorView::Insertion(inner@),
        FetchError::InvalidUriParts(p) => FetchErrorView::InvalidUriParts(p),
        FetchError::Network(m) => FetchErrorView::Network(m@),
        FetchError::ResolverError(inner) => FetchErrorView::ResolverError(
            resolver_error_view(inner),
        ),
        FetchError::IoError(m) => FetchErrorView::IoError(m@),
    }
}

/// A component error over sequences of characters.
pub open spec fn component_error_view(e: ComponentModError) -> ComponentModErrorView
    decreases e,
{
    match e {
        ComponentModError::InvalidHref(href) => ComponentModErrorView::InvalidHref(href@),
        ComponentModError::Insertion(inner) => ComponentModErrorView::Insertion(inner@),
        ComponentModError::InvalidUriParts(p) => ComponentModErrorView::InvalidUriParts(p),
        ComponentModError::Network(m) => ComponentModErrorView::Network(m@),
        ComponentModError::ResolverError(inner) => ComponentModErrorView::ResolverError(
            resolver_error_view(inner),
        ),
        ComponentModError::IoError(m) => ComponentModErrorView::IoError(m@),
        ComponentModError::LinkNotHtml => ComponentModErrorView::LinkNotHtml,
    }
}

impl View for ResolverError {
    type V = ResolverErrorView;

    open spec fn view(&self) -> ResolverErrorView {
        resolver_error_view(*self)
    }
}

impl View for Error {
    type V = ErrorView;

    open spec fn view(&self) -> ErrorView {
        error_view(*self)
    }
}

impl View for FetchError {
    type V = FetchErrorView;

    open spec fn view(&self) -> FetchErrorView {
        fetch_error_view(*self)
    }
}

impl View for ComponentModError {
    type V = ComponentModErrorView;

    open spec fn view(&self) -> ComponentModErrorView {
        component_error_view(*self)
    }
}

impl From<InsertResponseError> for ComponentModError {
    fn from(value: InsertResponseError) -> (out: ComponentModError) {
        ComponentModError::Insertion(value)
    }
}

impl vstd::std_specs::convert::FromSpecImpl<InsertResponseError> for ComponentModError {
    open spec fn obeys_from_spec() -> bool {
        true
    }

    open spec fn from_spec(value: InsertResponseError) -> ComponentModError {
        ComponentModError::Insertion(value)
    }
}

/// The message of a failure to put a URI together.
pub open spec fn parts_message(e: UriPartsError) -> Seq<char> {
    match e {
        UriPartsError::AuthorityMissing => "authority missing"@,
        UriPartsError::PathAndQueryMissing => "path missing"@,
        UriPartsError::SchemeMissing => "scheme missing"@,
    }
}

/// The message of a refused media type, by the name of the type.
pub open spec fn insertion_message(name: Seq<char>) -> Seq<char> {
    "Invalid mediatype: `"@ + name + "`"@
}

/// The message of a minify error: that of the minifier.
pub open spec fn minify_message(e: MinifyCssErrorView) -> Seq<char> {
    match e {
        MinifyCssErrorView::Parse(m) => m,
        MinifyCssErrorView::Minify(m) => m,
        MinifyCssErrorView::Print(m) => m,
    }
}

/// The message of a resolver error.
pub open spec fn resolver_message(e: ResolverErrorView) -> Seq<char>
    decreases e,
{
    match e {
        ResolverErrorView::InvalidUriParts(p) => parts_message(p),
        ResolverErrorView::NoMimeFound => "No mime found (did you try to resolve a folder without an index.html?)"@,
        ResolverErrorView::NotFound => "Resource not found"@,
        ResolverErrorView::ServerIssue => "There was a server issue"@,
        ResolverErrorView::WasNotUtf8 => "Expected UTF8, but resource contents were not"@,
        ResolverErrorView::ModProblem(inner) => "There was a mod problem: "@ + mod_message(*inner),
        ResolverErrorView::ParseAsMime => "There was a problem parsing an expected mime type"@,
    }
}

/// The message of a transform error: that of the transform that failed.
pub open spec fn mod_message(e: ErrorView) -> Seq<char>
    decreases e,
{
    match e {
        ErrorView::Fetch(inner) => fetch_message(inner),
        ErrorView::Css(inner) => minify_message(inner),
        ErrorView::Component(inner) => component_message(inner),
        ErrorView::ModMissing => "Mod does not exist"@,
        ErrorView::TooLong => "The page is too long to be parsed"@,
    }
}

/// The message of a fetch error.
pub open spec fn fetch_message(e: FetchErrorView) -> Seq<char>
    decreases e,
{
    match e {
        FetchErrorView::InvalidHref(href) => "Invalid href: "@ + href.text(),
        FetchErrorView::Insertion(inner) => insertion_message(inner),
        FetchErrorView::InvalidUriParts(p) => parts_message(p),
        FetchErrorView::Network(m) => m,
        FetchErrorView::ResolverError(inner) => resolver_message(inner),
        FetchErrorView::IoError(m) => m,
    }
}

/// The message of a component error.
pub open spec fn component_message(e: ComponentModErrorView) -> Seq<char>
    decreases e,
{
    match e {
        ComponentModErrorView::InvalidHref(href) => "Invalid href: "@ + href.text(),
        ComponentModErrorView::Insertion(inner) => insertion_message(inner),
        ComponentModErrorView::InvalidUriParts(p) => parts_message(p),
        ComponentModErrorView::Network(m) => m,
        ComponentModErrorView::ResolverError(inner) => resolver_message(inner),
        ComponentModErrorView::IoError(m) => m,
        ComponentModErrorView::LinkNotHtml => "The component at the specific link is not valid HTML"@,
    }
}

/// The status that a response to a failed request carries: 404 for a
/// missing resource, 500 for every other failure.
pub open spec fn status_of(e: ResolverErrorView) -> u16 {
    match e {
        ResolverErrorView::NotFound => 404,
        _ => 500,
    }
}

/// Two texts, one after the other.
fn joined_text(head: &str, tail: &str) -> (out: String)
    ensures
        out@ == head@ + tail@,
{
    let mut out = chars_of(head);
    extend(&mut out, &chars_of(tail));
    string_of(&out)
}

impl UriPartsError {
    /// The message of the error.
    pub fn message(&self) -> (out: String)
        ensures
            out@ == parts_message(*self),
    {
        match self {
            UriPartsError::AuthorityMissing => "authority missing".to_owned(),
            UriPartsError::PathAndQueryMissing => "path missing".to_owned(),
            UriPartsError::SchemeMissing => "scheme missing".to_owned(),
        }
    }
}

impl InsertResponseError {
    /// The message of the error.
    pub fn message(&self) -> (out: String)
        ensures
            out@ == insertion_message(self@),
    {
        let head = joined_text("Invalid mediatype: `", self.0.essence().as_str());
        joined_text(head.as_str(), "`")
    }
}

impl ResolverError {
    /// The message of the error.
    pub fn message(&self) -> (out: String)
        ensures
            out@ == resolver_message(self@),
        decreases self,
    {
        match self {
            ResolverError::InvalidUriParts(p) => p.message(),
            ResolverError::NoMimeFound => "No mime found (did you try to resolve a folder without an index.html?)".to_owned(),
            ResolverError::NotFound => "Resource not found".to_owned(),
            ResolverError::ServerIssue => "There was a server issue".to_owned(),
            ResolverError::WasNotUtf8 => "Expected UTF8, but resource contents were not".to_owned(),
            ResolverError::ModProblem(inner) => joined_text(
                "There was a mod problem: ",
                inner.message().as_str(),
            ),
            ResolverError::ParseAsMime => "There was a problem parsing an expected mime type".to_owned(),
        }
    }

    /// The status of the response to the failed request.
    pub fn status(&self) -> (out: u16)
        ensures
            out == status_of(self@),
    {
        match self {
            ResolverError::NotFound => 404,
            _ => 500,
        }
    }
}

impl Error {
    /// The message of the error.
    pub fn message(&self) -> (out: String)
        ensures
            out@ == mod_message(self@),
        decreases self,
    {
        match self {
            Error::Fetch(inner) => inner.message(),
            Error::Css(inner) => inner.message(),
            Error::Component(inner) => inner.message(),
            Error::ModMissing => "Mod does not exist".to_owned(),
            Error::TooLong => "The page is too long to be parsed".to_owned(),
        }
    }
}

impl FetchError {
    /// The message of the error.
    pub fn message(&self) -> (out: String)
        ensures
            out@ == fetch_message(self@),
        decreases self,
    {
        match self {
            FetchError::InvalidHref(href) => joined_text("Invalid href: ", href.text().as_str()),
            FetchError::Insertion(inner) => inner.message(),
            FetchError::InvalidUriParts(p) => p.message(),
            FetchError::Network(m) => m.clone(),
            FetchError::ResolverError(inner) => inner.message(),
            FetchError::IoError(m) => m.clone(),
        }
    }
}

impl ComponentModError {
    /// The message of the error.
    pub fn message(&self) -> (out: String)
        ensures
            out@ == component_message(self@),
        decreases self,
    {
        match self {
            ComponentModError::InvalidHref(href) => joined_text(
                "Invalid href: ",
                href.text().as_str(),
            ),
            ComponentModError::Insertion(inner) => inner.message(),
            ComponentModError::InvalidUriParts(p) => p.message(),
            ComponentModError::Network(m) => m.clone(),
            ComponentModError::ResolverError(inner) => inner.message(),
            ComponentModError::IoError(m) => m.clone(),
            ComponentModError::LinkNotHtml => "The component at the specific link is not valid HTML".to_owned(),
        }
    }
}

} // verus!
