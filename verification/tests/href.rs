use reqaz::html::attr::{Href, Uri, UriPartsError};

fn page_uri() -> Uri {
    Uri::parse("http://reqaz.local/dir/page.html?x=1").unwrap()
}

#[test]
fn href_classification() {
    assert!(matches!(Href::try_from("https://x/y.css"), Ok(Href::Uri(_))));
    assert!(matches!(Href::try_from("/a/b.css"), Ok(Href::Absolute(_))));
    assert!(matches!(Href::try_from("a/b.css"), Ok(Href::Relative(_))));
    let other = Href::try_from("javascript:void(0)").unwrap();
    assert!(matches!(other, Href::Other(_)));
    assert_eq!(other.extension(), None);
}

#[test]
fn javascript_comes_before_the_other_kinds() {
    assert!(matches!(Href::try_from("javascript://x/y.css"), Ok(Href::Other(_))));
    assert!(matches!(Href::try_from("/javascript:x"), Ok(Href::Absolute(_))));
    assert!(matches!(Href::try_from("/a://b"), Ok(Href::Absolute(_))));
    assert!(matches!(Href::try_from(""), Ok(Href::Relative(_))));
}

#[test]
fn text_with_scheme_mark_that_is_no_uri_is_refused() {
    assert!(Href::try_from("ht tp://bad host/").is_err());
    assert!(Uri::parse("ht tp://bad host/").is_err());
}

#[test]
fn href_extension_comes_from_the_path() {
    assert_eq!(Href::try_from("https://x/y.css?z.html").unwrap().extension(), Some("css".to_string()));
    assert_eq!(Href::try_from("/a/b.scss").unwrap().extension(), Some("scss".to_string()));
    assert_eq!(Href::try_from("a.b/c").unwrap().extension(), None);
    assert_eq!(Href::try_from("a/.hidden").unwrap().extension(), None);
    assert_eq!(Href::try_from("a/b.").unwrap().extension(), Some(String::new()));
}

#[test]
fn href_text_is_the_link_as_written() {
    assert_eq!(Href::try_from("/a/b.css").unwrap().text(), "/a/b.css");
    assert_eq!(Href::try_from("a/b.css").unwrap().text(), "a/b.css");
    assert_eq!(Href::try_from("javascript:void(0)").unwrap().text(), "javascript:void(0)");
    assert_eq!(Href::try_from("https://x/y.css?q=1").unwrap().text(), "https://x/y.css?q=1");
}

#[test]
fn uri_parts_of_a_full_uri() {
    let uri = Uri::parse("https://example.com:8080/a/b.css?x=1").unwrap();
    assert_eq!(uri.scheme.as_deref(), Some("https"));
    assert_eq!(uri.authority.as_deref(), Some("example.com:8080"));
    assert_eq!(uri.path, "/a/b.css");
    assert_eq!(uri.query.as_deref(), Some("x=1"));
    assert_eq!(uri.text(), "https://example.com:8080/a/b.css?x=1");
}

#[test]
fn uri_parts_of_a_path() {
    let uri = Uri::parse("/a/b.css").unwrap();
    assert_eq!(uri.scheme, None);
    assert_eq!(uri.authority, None);
    assert_eq!(uri.path, "/a/b.css");
    assert_eq!(uri.query, None);
    assert_eq!(uri.text(), "/a/b.css");
}

#[test]
fn relative_link_is_joined_onto_the_directory_of_the_page() {
    let to = Href::try_from("a/b.css").unwrap().append_to_uri(&page_uri()).unwrap();
    assert_eq!(to.text(), "http://reqaz.local/dir/a/b.css?x=1");
    assert_eq!(to.path, "/dir/a/b.css");
}

#[test]
fn absolute_link_starts_at_the_root_and_keeps_the_query() {
    let to = Href::try_from("/a/b.css").unwrap().append_to_uri(&page_uri()).unwrap();
    assert_eq!(to.text(), "http://reqaz.local/a/b.css?x=1");
    assert_eq!(to.query.as_deref(), Some("x=1"));
}

#[test]
fn page_without_query_gives_none() {
    let page = Uri::parse("http://reqaz.local/page.html").unwrap();
    let to = Href::try_from("a.css").unwrap().append_to_uri(&page).unwrap();
    assert_eq!(to.text(), "http://reqaz.local/a.css");
    assert_eq!(to.query, None);
}

#[test]
fn fragment_of_a_link_is_dropped() {
    let page = Uri::parse("http://reqaz.local/page.html").unwrap();
    let to = Href::try_from("a.css#top").unwrap().append_to_uri(&page).unwrap();
    assert_eq!(to.path, "/a.css");
    assert_eq!(to.text(), "http://reqaz.local/a.css");
}

#[test]
fn full_uri_stands_for_itself_and_other_gives_the_page() {
    let to = Href::try_from("https://x/y.css").unwrap().append_to_uri(&page_uri()).unwrap();
    assert_eq!(to.text(), "https://x/y.css");
    let same = Href::try_from("javascript:void(0)").unwrap().append_to_uri(&page_uri()).unwrap();
    assert_eq!(same.text(), "http://reqaz.local/dir/page.html?x=1");
}

#[test]
fn link_that_is_no_path_does_not_resolve() {
    let bad = Href::try_from("a b.css").unwrap().append_to_uri(&page_uri());
    assert_eq!(bad.err(), Some(UriPartsError::PathAndQueryMissing));
}

#[test]
fn parts_need_one_another() {
    let path = || Some(("/a".to_string(), None));
    assert_eq!(
        Uri::from_parts(Some("http".to_string()), None, path()).err(),
        Some(UriPartsError::AuthorityMissing)
    );
    assert_eq!(
        Uri::from_parts(Some("http".to_string()), Some("h".to_string()), None).err(),
        Some(UriPartsError::PathAndQueryMissing)
    );
    assert_eq!(
        Uri::from_parts(None, Some("h".to_string()), path()).err(),
        Some(UriPartsError::SchemeMissing)
    );
    let whole = Uri::from_parts(Some("http".to_string()), Some("h".to_string()), path()).unwrap();
    assert_eq!(whole.text(), "http://h/a");
    let bare = Uri::from_parts(None, None, None).unwrap();
    assert_eq!(bare.text(), "");
    assert_eq!(UriPartsError::SchemeMissing.message(), "scheme missing");
    assert_eq!(UriPartsError::AuthorityMissing.message(), "authority missing");
    assert_eq!(UriPartsError::PathAndQueryMissing.message(), "path missing");
}
