//! Link targets: URIs as plain parts, and the four kinds of `href`.

use vstd::prelude::*;
use crate::path::{directory, directory_of, extension_of, extension_of_text, join, joined};
use crate::text::{chars_of, contains, extend, has_infix, has_prefix, starts_with, string_of};

verus! {

/// Reading an attribute of an element by its name.
pub trait GetAttr {
    /// The value that `name` has, as a specification.
    spec fn attr(&self, name: Seq<char>) -> Option<Seq<char>>;

    /// The value of the attribute `name`, if the element has it.
    fn get_attr(&self, name: &str) -> (out: Option<String>)
        ensures
            text_of(out) == self.attr(name@),
    ;
}

/// The characters of an optional string.
pub open spec fn text_of(s: Option<String>) -> Option<Seq<char>> {
    match s {
        Some(s) => Some(s@),
        None => None,
    }
}

/// A copy of an optional string.
pub fn copy_text(s: &Option<String>) -> (out: Option<String>)
    ensures
        text_of(out) == text_of(*s),
{
    match s {
        Some(s) => Some(s.clone()),
        None => None,
    }
}

/// A URI, held as its parts.
#[derive(Clone, Debug)]
pub struct Uri {
    /// The scheme, such as `http`.
    pub scheme: Option<String>,
    /// Host and port.
    pub authority: Option<String>,
    /// The path.
    pub path: String,
    /// What follows the question mark.
    pub query: Option<String>,
}

/// The parts of a URI as sequences of characters.
pub struct UriView {
    pub scheme: Option<Seq<char>>,
    pub authority: Option<Seq<char>>,
    pub path: Seq<char>,
    pub query: Option<Seq<char>>,
}

impl View for Uri {
    type V = UriView;

    open spec fn view(&self) -> UriView {
        UriView {
            scheme: text_of(self.scheme),
            authority: text_of(self.authority),
            path: self.path@,
            query: text_of(self.query),
        }
    }
}

/// The text was no URI.
#[derive(Clone, Copy, Debug, PartialEq, Eq, Structural)]
pub struct UriError;

/// Why parts do not make a URI.
#[derive(Clone, Copy, Debug, PartialEq, Eq, Structural)]
pub enum UriPartsError {
    /// A scheme without an authority.
    AuthorityMissing,
    /// A scheme without path and query.
    PathAndQueryMissing,
    /// An authority and a path without a scheme.
    SchemeMissing,
}

/// The error of `http` for a text that is no URI. Nothing is known of
/// what it holds.
#[verifier::external_type_specification]
#[verifier::external_body]
pub struct ExInvalidUri(http::uri::InvalidUri);

/// The parts that `http` reads out of a text as a URI; none where it
/// refuses the text.
pub uninterp spec fn uri_syntax(text: Seq<char>) -> Option<UriView>;

/// Path and query that `http` reads out of a text; none where it refuses
/// the text.
pub uninterp spec fn path_and_query_syntax(text: Seq<char>) -> Option<(Seq<char>, Option<Seq<char>>)>;

/// `http::Uri::from_str`, with the parts of the URI it returns taken out
/// by `scheme_str`, `authority`, `path` and `query`. Nothing is claimed of
/// the parts but that they are what `http` makes of the text.
#[verifier::external_body]
fn http_uri(text: &str) -> (out: Result<Uri, http::uri::InvalidUri>)
    ensures
        match out {
            Ok(uri) => uri_syntax(text@) == Some(uri@),
            Err(_) => uri_syntax(text@) is None,
        },
{
    let uri = text.parse::<http::Uri>()?;
    Ok(Uri {
        scheme: uri.scheme_str().map(str::to_owned),
        authority: uri.authority().map(|a| a.as_str().to_owned()),
        path: uri.path().to_owned(),
        query: uri.query().map(str::to_owned),
    })
}

/// `http::uri::PathAndQuery::from_str`, with `path` and `query` of what it
/// returns.
#[verifier::external_body]
fn http_path_and_query(text: &str) -> (out: Result<(String, Option<String>), http::uri::InvalidUri>)
    ensures
        match out {
            Ok(pq) => path_and_query_syntax(text@) == Some((pq.0@, text_of(pq.1))),
            Err(_) => path_and_query_syntax(text@) is None,
        },
{
    let pq = text.parse::<http::uri::PathAndQuery>()?;
    Ok((pq.path().to_owned(), pq.query().map(str::to_owned)))
}

/// The text of a path with the query behind it, as `from_parts` is given
/// it.
pub open spec fn with_query(path: Seq<char>, query: Option<Seq<char>>) -> Seq<char> {
    match query {
        Some(q) => path + seq!['?'] + q,
        None => path,
    }
}

/// A URI from scheme, authority, and path and query. A scheme needs both
/// of the others; an authority with a path needs a scheme. Without path
/// and query the path is empty.
pub open spec fn uri_from_parts(
    scheme: Option<Seq<char>>,
    authority: Option<Seq<char>>,
    path_and_query: Option<(Seq<char>, Option<Seq<char>>)>,
) -> Result<UriView, UriPartsError> {
    if scheme is Some && authority is None {
        Err(UriPartsError::AuthorityMissing)
    } else if scheme is Some && path_and_query is None {
        Err(UriPartsError::PathAndQueryMissing)
    } else if scheme is None && authority is Some && path_and_query is Some {
        Err(UriPartsError::SchemeMissing)
    } else {
        match path_and_query {
            Some(pq) => Ok(UriView { scheme, authority, path: pq.0, query: pq.1 }),
            None => Ok(UriView { scheme, authority, path: Seq::empty(), query: None }),
        }
    }
}

/// The text of a URI: scheme and `://`, authority, path, and the query
/// behind a question mark.
pub open spec fn uri_text(uri: UriView) -> Seq<char> {
    let head = match uri.scheme {
        Some(s) => s + seq![':', '/', '/'],
        None => Seq::empty(),
    };
    let host = match uri.authority {
        Some(a) => a,
        None => Seq::empty(),
    };
    with_query(head + host + uri.path, uri.query)
}

impl Uri {
    /// Reads a URI out of a text.
    pub fn parse(text: &str) -> (out: Result<Uri, UriError>)
        ensures
            match out {
                Ok(uri) => uri_syntax(text@) == Some(uri@),
                Err(_) => uri_syntax(text@) is None,
            },
    {
        match http_uri(text) {
            Ok(uri) => Ok(uri),
            Err(_) => Err(UriError),
        }
    }

    /// Puts a URI together from its parts.
    pub fn from_parts(
        scheme: Option<String>,
        authority: Option<String>,
        path_and_query: Option<(String, Option<String>)>,
    ) -> (out: Result<Uri, UriPartsError>)
        ensures
            match out {
                Ok(uri) => Ok::<UriView, UriPartsError>(uri@),
                Err(e) => Err(e),
            } == uri_from_parts(
                text_of(scheme),
                text_of(authority),
                match path_and_query {
                    Some(pq) => Some((pq.0@, text_of(pq.1))),
                    None => None,
                },
            ),
    {
        if scheme.is_some() && authority.is_none() {
            return Err(UriPartsError::AuthorityMissing);
        }
        if scheme.is_some() && path_and_query.is_none() {
            return Err(UriPartsError::PathAndQueryMissing);
        }
        if scheme.is_none() && authority.is_some() && path_and_query.is_some() {
            return Err(UriPartsError::SchemeMissing);
        }
        match path_and_query {
            Some(pq) => Ok(Uri { scheme, authority, path: pq.0, query: pq.1 }),
            None => Ok(Uri { scheme, authority, path: String::new(), query: None }),
        }
    }

    /// A copy of the URI.
    pub fn copy(&self) -> (out: Uri)
        ensures
            out@ == self@,
    {
        Uri {
            scheme: copy_text(&self.scheme),
            authority: copy_text(&self.authority),
            path: self.path.clone(),
            query: copy_text(&self.query),
        }
    }

    /// The URI as one text.
    pub fn text(&self) -> (out: String)
        ensures
            out@ == uri_text(self@),
    {
        let mut out: Vec<char> = Vec::new();
        match &self.scheme {
            Some(s) => {
                extend(&mut out, &chars_of(s.as_str()));
                out.push(':');
                out.push('/');
                out.push('/');
                assert(out@ == s@ + seq![':', '/', '/']);
            },
            None => {},
        }
        match &self.authority {
            Some(a) => {
                extend(&mut out, &chars_of(a.as_str()));
            },
            None => {},
        }
        extend(&mut out, &chars_of(self.path.as_str()));
        match &self.query {
            Some(q) => {
                out.push('?');
                extend(&mut out, &chars_of(q.as_str()));
            },
            None => {},
        }
        string_of(&out)
    }
}

/// A link target.
#[derive(Clone, Debug)]
pub enum Href {
    /// A full URI, fetched over the network.
    Uri(Uri),
    /// A path from the serving root.
    Absolute(String),
    /// A path from the directory of the current page.
    Relative(String),
    /// Anything that cannot be fetched, such as `javascript:`.
    Other(String),
}

/// The kind of link that a text is, before a URI is read out of it.
#[derive(Clone, Copy, Debug, PartialEq, Eq, Structural)]
pub enum HrefKind {
    Uri,
    Absolute,
    Relative,
    Other,
}

/// Classification of a link text: `javascript:` first, then a leading
/// slash, then `://` anywhere, and a relative path otherwise.
pub open spec fn href_kind(value: Seq<char>) -> HrefKind {
    if has_prefix(value, "javascript:"@) {
        HrefKind::Other
    } else if has_prefix(value, "/"@) {
        HrefKind::Absolute
    } else if has_infix(value, "://"@) {
        HrefKind::Uri
    } else {
        HrefKind::Relative
    }
}

/// The link that a text stands for; none where the text has `://` in it
/// and is no URI.
pub open spec fn href_of(value: Seq<char>) -> Option<HrefView> {
    match href_kind(value) {
        HrefKind::Other => Some(HrefView::Other(value)),
        HrefKind::Absolute => Some(HrefView::Absolute(value)),
        HrefKind::Relative => Some(HrefView::Relative(value)),
        HrefKind::Uri => match uri_syntax(value) {
            Some(uri) => Some(HrefView::Uri(uri)),
            None => None,
        },
    }
}

/// A link target over sequences of characters.
pub enum HrefView {
    Uri(UriView),
    Absolute(Seq<char>),
    Relative(Seq<char>),
    Other(Seq<char>),
}

impl View for Href {
    type V = HrefView;

    open spec fn view(&self) -> HrefView {
        match self {
            Href::Uri(uri) => HrefView::Uri(uri@),
            Href::Absolute(path) => HrefView::Absolute(path@),
            Href::Relative(path) => HrefView::Relative(path@),
            Href::Other(text) => HrefView::Other(text@),
        }
    }
}

impl HrefView {
    /// The kind of the link.
    pub open spec fn kind(self) -> HrefKind {
        match self {
            HrefView::Uri(_) => HrefKind::Uri,
            HrefView::Absolute(_) => HrefKind::Absolute,
            HrefView::Relative(_) => HrefKind::Relative,
            HrefView::Other(_) => HrefKind::Other,
        }
    }

    /// The extension of the link's path; a link that cannot be fetched has
    /// none.
    pub open spec fn extension(self) -> Option<Seq<char>> {
        match self {
            HrefView::Uri(uri) => extension_of(uri.path),
            HrefView::Absolute(path) => extension_of(path),
            HrefView::Relative(path) => extension_of(path),
            HrefView::Other(_) => None,
        }
    }

    /// The text of the link.
    pub open spec fn text(self) -> Seq<char> {
        match self {
            HrefView::Uri(uri) => uri_text(uri),
            HrefView::Absolute(path) => path,
            HrefView::Relative(path) => path,
            HrefView::Other(text) => text,
        }
    }

    /// The link resolved against the URI of the page that holds it. A full
    /// URI stands for itself and a link that cannot be fetched gives the
    /// page back. A path is joined onto the directory of the page's path
    /// and takes the page's query along; scheme and authority stay.
    pub open spec fn resolved(self, page: UriView) -> Result<UriView, UriPartsError> {
        match self {
            HrefView::Uri(uri) => Ok(uri),
            HrefView::Other(_) => Ok(page),
            HrefView::Absolute(path) => resolved_path(path, page),
            HrefView::Relative(path) => resolved_path(path, page),
        }
    }
}

/// A path resolved against a page.
pub open spec fn resolved_path(path: Seq<char>, page: UriView) -> Result<UriView, UriPartsError> {
    uri_from_parts(
        page.scheme,
        page.authority,
        path_and_query_syntax(with_query(joined(directory_of(page.path), path), page.query)),
    )
}

impl Href {
    /// Classifies a link text and, where it holds `://`, reads the URI.
    pub fn try_from(value: &str) -> (out: Result<Href, UriError>)
        ensures
            match out {
                Ok(href) => href_of(value@) == Some(href@),
                Err(_) => href_of(value@) is None,
            },
    {
        let chars = chars_of(value);
        if starts_with(&chars, &chars_of("javascript:")) {
            return Ok(Href::Other(value.to_owned()));
        }
        if starts_with(&chars, &chars_of("/")) {
            return Ok(Href::Absolute(value.to_owned()));
        }
        if contains(&chars, &chars_of("://")) {
            return match Uri::parse(value) {
                Ok(uri) => Ok(Href::Uri(uri)),
                Err(e) => Err(e),
            };
        }
        Ok(Href::Relative(value.to_owned()))
    }

    /// The file extension of the link's path.
    pub fn extension(&self) -> (out: Option<String>)
        ensures
            text_of(out) == self@.extension(),
    {
        match self {
            Href::Uri(uri) => extension_of_text(uri.path.as_str()),
            Href::Absolute(path) => extension_of_text(path.as_str()),
            Href::Relative(path) => extension_of_text(path.as_str()),
            Href::Other(_) => None,
        }
    }

    /// The link as text.
    pub fn text(&self) -> (out: String)
        ensures
            out@ == self@.text(),
    {
        match self {
            Href::Uri(uri) => uri.text(),
            Href::Absolute(path) => path.clone(),
            Href::Relative(path) => path.clone(),
            Href::Other(text) => text.clone(),
        }
    }

    /// Resolves the link against the URI of the page that holds it.
    pub fn append_to_uri(self, uri: &Uri) -> (out: Result<Uri, UriPartsError>)
        ensures
            match out {
                Ok(to) => Ok::<UriView, UriPartsError>(to@),
                Err(e) => Err(e),
            } == self@.resolved(uri@),
    {
        match self {
            Href::Uri(own) => Ok(own),
            Href::Other(_) => Ok(uri.copy()),
            Href::Absolute(path) => resolve_path(path.as_str(), uri),
            Href::Relative(path) => resolve_path(path.as_str(), uri),
        }
    }
}

/// Resolves a path against a page.
fn resolve_path(path: &str, page: &Uri) -> (out: Result<Uri, UriPartsError>)
    ensures
        match out {
            Ok(to) => Ok::<UriView, UriPartsError>(to@),
            Err(e) => Err(e),
        } == resolved_path(path@, page@),
{
    let base = directory(&chars_of(page.path.as_str()));
    let mut target = join(&base, &chars_of(path));
    let ghost plain = target@;
    match &page.query {
        Some(q) => {
            target.push('?');
            extend(&mut target, &chars_of(q.as_str()));
            assert(target@ =~= plain + seq!['?'] + q@);
        },
        None => {},
    }
    assert(target@ == with_query(plain, text_of(page.query)));
    let text = string_of(&target);
    let path_and_query = match http_path_and_query(text.as_str()) {
        Ok(pq) => Some(pq),
        Err(_) => None,
    };
    Uri::from_parts(copy_text(&page.scheme), copy_text(&page.authority), path_and_query)
}

} // verus!
