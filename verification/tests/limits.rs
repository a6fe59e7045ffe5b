use reqaz::error::Error;
use reqaz::html::attr::Uri;
use reqaz::html::dom::Document;
use reqaz::html::markup::{reserialize, short_enough, PARSE_LIMIT};
use reqaz::html::mods::component::html_from_string;
use reqaz::html::mods::css::{minify, MinifyCssError, MINIFY_LIMIT};
use reqaz::html::mods::fetch::{insert_response, lift_fragment, FetchResponse};
use reqaz::html::mods::HtmlModManager;
use reqaz::mediatype::{MediaType, MediaTypeBuf};
use reqaz::source::{Outcome, Reply, Request, ResolverError, SourceResolver, Step};

fn too_long() -> String {
    "a".repeat(PARSE_LIMIT + 1)
}

#[test]
fn limit_is_counted_in_bytes() {
    assert_eq!(PARSE_LIMIT, 536_870_912);
    assert!(short_enough(""));
    assert!(short_enough(&"a".repeat(PARSE_LIMIT)));
    assert!(!short_enough(&too_long()));
    assert!(short_enough(&"\u{e9}".repeat(PARSE_LIMIT / 2)));
    assert!(!short_enough(&"\u{e9}".repeat(PARSE_LIMIT / 2 + 1)));
}

#[test]
fn text_that_is_too_long_is_not_parsed() {
    let long = too_long();
    let mut doc = Document::new();
    let before = doc.create_fragment();
    assert_eq!(doc.parse_html(&long), None);
    assert_eq!(doc.parse_fragment(&long), None);
    assert_eq!(doc.len(), before + 1);
    assert_eq!(reserialize(&long), None);
    assert_eq!(doc.parse_html("<p>x</p>"), Some(before + 1));
}

#[test]
fn page_that_is_too_long_cannot_be_read_as_a_page() {
    let resolver = SourceResolver::new("/srv".to_string(), "reqaz.local".to_string());
    let uri = Uri::parse("/long.html").unwrap();
    let (mut session, _) = resolver.resolve_source(&uri);
    match session.resume(Reply::Exists(false)) {
        Step::Ask(Request::Read(path)) => assert_eq!(path, "/srv/long.html"),
        other => panic!("unexpected step {:?}", other),
    }
    assert!(matches!(session.resume(Reply::Read(Ok(too_long().into_bytes()))), Step::More));
    match session.proceed() {
        Step::Done(Outcome::Source(Err(e))) => {
            assert!(matches!(e, ResolverError::ParseAsMime));
            assert_eq!(e.message(), "There was a problem parsing an expected mime type");
        }
        other => panic!("unexpected step {:?}", other),
    }
}

#[test]
fn fetched_markup_that_is_too_long_is_refused() {
    let mut doc = Document::new();
    let el = doc.create_fragment();
    let resp = FetchResponse { body: too_long().into_bytes(), mime: MediaTypeBuf::of(MediaType::Svg) };
    match insert_response(&mut doc, el, resp) {
        Err(e) => assert_eq!(e.0.essence(), "text/html"),
        Ok(()) => panic!("the markup was inserted"),
    }
    assert_eq!(doc.len(), 1);
    assert!(lift_fragment(&mut doc, el, &too_long()).is_err());
    assert_eq!(doc.len(), 1);
    assert!(doc.children(el).is_empty());
}

#[test]
fn component_body_that_is_too_long_is_refused() {
    let mut doc = Document::new();
    match html_from_string(&mut doc, &too_long()) {
        Err(e) => assert_eq!(e.message(), "Invalid mediatype: `text/html`"),
        Ok(_) => panic!("the body was parsed"),
    }
    assert_eq!(doc.len(), 0);
}

#[test]
fn page_at_hand_that_is_too_long_ends_at_once() {
    let resolver = SourceResolver::new("/srv".to_string(), "reqaz.local".to_string());
    let uri = Uri::parse("http://reqaz.local/page.html").unwrap();
    let (mut session, step) = reqaz::html::process_html(&resolver, &uri, too_long());
    assert!(matches!(step, Step::More));
    match session.proceed() {
        Step::Done(Outcome::Page(Err(e))) => {
            assert!(matches!(e, Error::TooLong));
            assert_eq!(e.message(), "The page is too long to be parsed");
        }
        other => panic!("unexpected step {:?}", other),
    }
}

#[test]
fn manager_ends_at_once_on_a_page_that_is_too_long() {
    let resolver = SourceResolver::new("/srv".to_string(), "reqaz.local".to_string());
    let uri = Uri::parse("http://reqaz.local/page.html").unwrap();
    let manager = HtmlModManager::standard(uri);
    let (mut session, _) = manager.apply_mods(&resolver, too_long());
    assert!(matches!(session.proceed(), Step::Done(Outcome::Page(Err(Error::TooLong)))));
    let (mut session, _) = manager.apply_mod(&resolver, too_long(), "css").unwrap();
    assert!(matches!(session.proceed(), Step::Done(Outcome::Page(Err(Error::TooLong)))));
    assert!(matches!(manager.apply_mod(&resolver, too_long(), "none"), Err(Error::ModMissing)));
}

#[test]
fn stylesheet_that_is_too_long_is_not_minified() {
    assert_eq!(MINIFY_LIMIT, 268_435_456);
    match minify(&" ".repeat(MINIFY_LIMIT + 1)) {
        Err(MinifyCssError::Minify(message)) => {
            assert_eq!(message, "The stylesheet is too long to be minified")
        }
        _ => panic!("the stylesheet was minified"),
    }
    assert_eq!(minify("a { color: red }").ok(), Some("a{color:red}".to_string()));
    assert_eq!(minify("").ok(), Some(String::new()));
    assert!(matches!(minify("a { color: red } }"), Err(MinifyCssError::Parse(_))));
}
