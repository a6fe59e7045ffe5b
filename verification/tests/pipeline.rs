use reqaz::html::attr::Uri;
use reqaz::mediatype::MediaType;
use reqaz::source::{
    Outcome, ReadError, Remote, RemoteError, Reply, Request, Resolved, ResolverError,
    SourceResolver, Step,
};

fn serve(
    files: &[(&str, &str)],
    remote: &[(&str, &str, &str)],
    uri: &str,
) -> Result<Resolved, ResolverError> {
    let resolver = SourceResolver::new("/srv".to_string(), "reqaz.local".to_string());
    let uri = Uri::parse(uri).unwrap();
    let (mut session, mut step) = resolver.resolve_source(&uri);
    let mut turns = 0;
    loop {
        turns += 1;
        assert!(turns < 10_000);
        step = match step {
            Step::Ask(Request::Exists(path)) => {
                session.resume(Reply::Exists(files.iter().any(|f| f.0 == path)))
            }
            Step::Ask(Request::Read(path)) => {
                session.resume(Reply::Read(match files.iter().find(|f| f.0 == path) {
                    Some(f) => Ok(f.1.as_bytes().to_vec()),
                    None => Err(ReadError::NotFound),
                }))
            }
            Step::Ask(Request::Get(url)) => {
                session.resume(Reply::Got(match remote.iter().find(|r| r.0 == url) {
                    Some(r) => Ok(Remote {
                        content_type: r.1.to_string(),
                        body: r.2.as_bytes().to_vec(),
                    }),
                    None => Err(RemoteError::Network("no route".to_string())),
                }))
            }
            Step::Ask(Request::Compile(source)) => session.resume(Reply::Compiled(
                rsass::compile_scss(&source, Default::default()).ok(),
            )),
            Step::More => session.proceed(),
            Step::Done(Outcome::Source(result)) => return result,
            Step::Done(other) => panic!("unexpected outcome {:?}", other),
        };
    }
}

fn page(files: &[(&str, &str)], remote: &[(&str, &str, &str)], uri: &str) -> String {
    let resolved = serve(files, remote, uri).unwrap();
    assert_eq!(resolved.mime, MediaType::Html);
    String::from_utf8(resolved.body).unwrap()
}


fn failure(files: &[(&str, &str)], remote: &[(&str, &str, &str)], uri: &str) -> ResolverError {
    match serve(files, remote, uri) {
        Ok(_) => panic!("the request was served"),
        Err(e) => e,
    }
}

#[test]
fn plain_page_gains_one_empty_style() {
    let out = page(
        &[("/srv/basic.html", "<!DOCTYPE html><html><head><title>t</title></head><body><p>Hi &amp; bye</p></body></html>")],
        &[],
        "/basic.html",
    );
    assert_eq!(
        out,
        "<!DOCTYPE html><html><head><title>t</title><style></style></head><body><p>Hi &amp; bye</p></body></html>"
    );
}

#[test]
fn plain_page_is_stable_under_a_second_pass_but_for_the_style() {
    let first = page(
        &[("/srv/basic.html", "<html><head></head><body><p>stable</p><!-- note --></body></html>")],
        &[],
        "/basic.html",
    );
    assert_eq!(
        first,
        "<html><head><style></style></head><body><p>stable</p><!-- note --></body></html>"
    );
    let second = page(&[("/srv/basic.html", first.as_str())], &[], "/basic.html");
    assert_eq!(second, first);
}

#[test]
fn directory_routing_prefers_index() {
    let files = [
        ("/srv/foo/index.html", "<html><head></head><body>index</body></html>"),
        ("/srv/foo.css", "a { color: red }"),
    ];
    let out = page(&files, &[], "/foo/");
    assert_eq!(out, "<html><head><style></style></head><body>index</body></html>");
    let css = serve(&files, &[], "/foo.css").unwrap();
    assert_eq!(css.mime, MediaType::Css);
    assert_eq!(css.body, b"a { color: red }".to_vec());
}

#[test]
fn first_question_is_for_the_index_page() {
    let resolver = SourceResolver::new("/srv".to_string(), "reqaz.local".to_string());
    let uri = Uri::parse("/foo/").unwrap();
    let (mut session, step) = resolver.resolve_source(&uri);
    match step {
        Step::Ask(Request::Exists(path)) => assert_eq!(path, "/srv/foo/index.html"),
        other => panic!("unexpected step {:?}", other),
    }
    match session.resume(Reply::Exists(false)) {
        Step::Ask(Request::Read(path)) => assert_eq!(path, "/srv/foo/"),
        other => panic!("unexpected step {:?}", other),
    }
}

#[test]
fn an_answer_that_was_not_asked_for_is_dropped() {
    let resolver = SourceResolver::new("/srv".to_string(), "reqaz.local".to_string());
    let uri = Uri::parse("/a.css").unwrap();
    let (mut session, _) = resolver.resolve_source(&uri);
    assert!(matches!(session.resume(Reply::Read(Ok(vec![1]))), Step::More));
    assert!(matches!(session.proceed(), Step::More));
    match session.resume(Reply::Exists(true)) {
        Step::Ask(Request::Read(path)) => assert_eq!(path, "/srv/a.css/index.html"),
        other => panic!("unexpected step {:?}", other),
    }
}

#[test]
fn fetch_inlines_css_and_bundles_it() {
    let files = [
        (
            "/srv/page.html",
            "<html><head><link nib-mod=\"fetch\" href=\"/a.css\"></head><body><style>p { color: blue }</style></body></html>",
        ),
        ("/srv/a.css", "a { color: red }"),
    ];
    let out = page(&files, &[], "/page.html");
    assert_eq!(
        out,
        "<html><head><style>a{color:red}p{color:#00f}</style></head><body></body></html>"
    );
}

#[test]
fn styles_are_gathered_in_document_order() {
    let files = [(
        "/srv/page.html",
        "<html><head><style>.a{top:1px}</style></head><body><style>.b{top:2px}</style><div><style>.c{top:3px}</style></div><style>.d{top:4px}</style></body></html>",
    )];
    let out = page(&files, &[], "/page.html");
    assert_eq!(
        out,
        "<html><head><style>.a{top:1px}.b{top:2px}.c{top:3px}.d{top:4px}</style></head><body><div></div></body></html>"
    );
}

#[test]
fn component_prop_is_put_in() {
    let files = [
        ("/srv/page.html", "<html><head></head><body><object nib-mod=\"component\" data=\"/c.html\"><param name=\"title\" value=\"Hi\"></object></body></html>"),
        ("/srv/c.html", "<h1><param name=\"title\"></h1>"),
    ];
    assert_eq!(
        page(&files, &[], "/page.html"),
        "<html><head><style></style></head><body><h1>Hi</h1><style></style></body></html>"
    );
}

#[test]
fn component_prop_that_is_not_given_is_empty() {
    let files = [
        ("/srv/page.html", "<html><head></head><body><object nib-mod=\"component\" data=\"/c.html\"></object></body></html>"),
        ("/srv/c.html", "<h1><param name=\"title\"></h1>"),
    ];
    assert_eq!(
        page(&files, &[], "/page.html"),
        "<html><head><style></style></head><body><h1></h1><style></style></body></html>"
    );
}

#[test]
fn component_slot_is_put_in_once() {
    let files = [
        ("/srv/page.html", "<html><head></head><body><object nib-mod=\"component\" data=\"c.html\"><p>X</p></object></body></html>"),
        ("/srv/c.html", "<div><source slot></div>"),
    ];
    let out = page(&files, &[], "/page.html");
    assert_eq!(
        out,
        "<html><head><style></style></head><body><div><p>X</p></div><style></style></body></html>"
    );
    assert_eq!(out.matches("<p>X</p>").count(), 1);
}

#[test]
fn fetch_element_without_href_is_kept() {
    let files = [(
        "/srv/page.html",
        "<html><head></head><body><div nib-mod=\"fetch\" class=\"k\">keep</div></body></html>",
    )];
    let out = page(&files, &[], "/page.html");
    assert!(out.contains("<div nib-mod=\"fetch\" class=\"k\">keep</div>"));
    assert_eq!(
        out,
        "<html><head><style></style></head><body><div nib-mod=\"fetch\" class=\"k\">keep</div></body></html>"
    );
}

#[test]
fn fetch_element_with_unreadable_href_is_kept() {
    let files = [(
        "/srv/page.html",
        "<html><head></head><body><i nib-mod=\"fetch\" href=\"ht tp://bad host/x.css\"></i></body></html>",
    )];
    let out = page(&files, &[], "/page.html");
    assert_eq!(
        out,
        "<html><head><style></style></head><body><i nib-mod=\"fetch\" href=\"ht tp://bad host/x.css\"></i></body></html>"
    );
}

#[test]
fn component_by_link_fills_the_title() {
    let files = [
        ("/srv/page.html", "<html><head><link nib-mod=\"component\" href=\"/c.html\" nib-prop-title=\"T\"></head><body></body></html>"),
        ("/srv/c.html", "<title>&lt;param name=\"title\"&gt; page</title>"),
    ];
    assert_eq!(
        page(&files, &[], "/page.html"),
        "<html><head><title>T page</title><style></style><style></style></head><body></body></html>"
    );
}

#[test]
fn external_fetch_goes_by_the_content_type() {
    let files = [(
        "/srv/page.html",
        "<html><head></head><body><a nib-mod=\"x fetch\" href=\"https://cdn.test/part.html\">old</a></body></html>",
    )];
    let remote = [("https://cdn.test/part.html", "Text/HTML", "<b>new</b> text")];
    assert_eq!(
        page(&files, &remote, "/page.html"),
        "<html><head><style></style></head><body><b>new</b> text</body></html>"
    );
}

#[test]
fn external_fetch_of_an_unknown_type_fails() {
    let files = [(
        "/srv/page.html",
        "<html><head></head><body><a nib-mod=\"fetch\" href=\"https://cdn.test/part.html\">old</a></body></html>",
    )];
    let remote = [("https://cdn.test/part.html", "text/plain", "x")];
    let e = failure(&files, &remote, "/page.html");
    assert_eq!(e.message(), "There was a mod problem: Invalid mediatype: `text/plain`");
    assert_eq!(e.status(), 500);
}

#[test]
fn network_failure_fails_the_page() {
    let files = [(
        "/srv/page.html",
        "<html><head></head><body><a nib-mod=\"fetch\" href=\"https://cdn.test/gone.css\">old</a></body></html>",
    )];
    let e = failure(&files, &[], "/page.html");
    assert_eq!(e.message(), "There was a mod problem: no route");
}

#[test]
fn stylesheet_source_is_compiled() {
    let files = [("/srv/a.scss", "a { b { c: d } }"), ("/srv/b.SCSS", "x { y: z }")];
    let resolved = serve(&files, &[], "/a.scss").unwrap();
    assert_eq!(resolved.mime, MediaType::Css);
    assert_eq!(String::from_utf8(resolved.body).unwrap(), "a b {\n  c: d;\n}\n");
    let capital = serve(&files, &[], "/b.SCSS").unwrap();
    assert_eq!(capital.mime, MediaType::OctetStream);
    assert_eq!(String::from_utf8(capital.body).unwrap(), "x {\n  y: z;\n}\n");
}

#[test]
fn stylesheet_source_that_does_not_compile_fails() {
    let e = failure(&[("/srv/a.scss", "a { b: ")], &[], "/a.scss");
    assert!(matches!(e, ResolverError::ParseAsMime));
    assert_eq!(e.message(), "There was a problem parsing an expected mime type");
}

#[test]
fn fetch_of_an_image_inlines_svg() {
    let files = [
        ("/srv/page.html", "<html><head></head><body><i nib-mod=\"fetch\" href=\"pic.svg\"></i></body></html>"),
        ("/srv/pic.svg", "<svg xmlns=\"http://www.w3.org/2000/svg\"><circle r=\"1\"/></svg>"),
    ];
    assert_eq!(
        page(&files, &[], "/page.html"),
        "<html><head><style></style></head><body><svg xmlns=\"http://www.w3.org/2000/svg\"><circle r=\"1\"></circle></svg></body></html>"
    );
}

#[test]
fn fetch_of_an_extension_without_container_fails() {
    let e = failure(
        &[("/srv/page.html", "<p nib-mod=\"fetch\" href=\"/x.txt\"></p>")],
        &[],
        "/page.html",
    );
    assert_eq!(e.message(), "There was a mod problem: Invalid href: /x.txt");
}

#[test]
fn fetch_of_a_missing_file_fails() {
    let e = failure(
        &[("/srv/page.html", "<p nib-mod=\"fetch\" href=\"/x.css\"></p>")],
        &[],
        "/page.html",
    );
    assert_eq!(e.message(), "There was a mod problem: Resource not found");
    assert_eq!(e.status(), 500);
}

#[test]
fn missing_file_is_not_found() {
    let e = failure(&[], &[], "/page.html");
    assert!(matches!(e, ResolverError::NotFound));
    assert_eq!(e.status(), 404);
    assert_eq!(e.message(), "Resource not found");
}

#[test]
fn file_without_extension_has_no_media_type() {
    let e = failure(&[("/srv/page", "x")], &[], "/page");
    assert!(matches!(e, ResolverError::NoMimeFound));
}

#[test]
fn unknown_extension_is_an_octet_stream() {
    let resolved = serve(&[("/srv/data.bin", "\u{1}\u{2}")], &[], "/data.bin").unwrap();
    assert_eq!(resolved.mime, MediaType::OctetStream);
    assert_eq!(resolved.body, vec![1u8, 2u8]);
}

#[test]
fn component_that_is_no_html_fails() {
    let files = [
        ("/srv/page.html", "<object nib-mod=\"component\" data=\"/c.css\"></object>"),
        ("/srv/c.css", "a{}"),
    ];
    let e = failure(&files, &[], "/page.html");
    assert_eq!(
        e.message(),
        "There was a mod problem: The component at the specific link is not valid HTML"
    );
}

#[test]
fn external_component_must_be_declared_html() {
    let files = [(
        "/srv/page.html",
        "<object nib-mod=\"component\" data=\"https://cdn.test/c.html\"></object>",
    )];
    let e = failure(&files, &[("https://cdn.test/c.html", "text/css", "<b></b>")], "/page.html");
    assert_eq!(
        e.message(),
        "There was a mod problem: The component at the specific link is not valid HTML"
    );
    let ok = page(&files, &[("https://cdn.test/c.html", "text/html", "<b>c</b>")], "/page.html");
    assert_eq!(
        ok,
        "<html><head><style></style></head><body><b>c</b><style></style></body></html>"
    );
}

#[test]
fn components_nest_and_relative_links_keep_the_query() {
    let files = [
        ("/srv/dir/page.html", "<html><head></head><body><object nib-mod=\"component\" data=\"outer.html\"><param name=\"who\" value=\"W\"><em>slot</em></object></body></html>"),
        ("/srv/dir/outer.html", "<section><link nib-mod=\"component\" href=\"inner.html\" nib-prop-x=\"1\"><source slot><param name=\"who\"></section>"),
        ("/srv/dir/inner.html", "<b><param name=\"x\"></b>"),
    ];
    assert_eq!(
        page(&files, &[], "/dir/page.html?v=2"),
        "<html><head><style></style></head><body><section><b>1</b><em>slot</em>W</section><style></style></body></html>"
    );
}

#[test]
fn object_without_link_loses_its_content_to_the_slot() {
    let files = [(
        "/srv/page.html",
        "<html><head></head><body><object nib-mod=\"component\"><param name=\"a\" value=\"b\"><p>gone</p></object></body></html>",
    )];
    assert_eq!(
        page(&files, &[], "/page.html"),
        "<html><head><style></style></head><body><object nib-mod=\"component\"><param name=\"a\" value=\"b\"></object></body></html>"
    );
}

#[test]
fn page_that_is_not_utf8_fails() {
    let resolver = SourceResolver::new("/srv".to_string(), "reqaz.local".to_string());
    let uri = Uri::parse("/page.html").unwrap();
    let (mut session, _) = resolver.resolve_source(&uri);
    session.resume(Reply::Exists(false));
    assert!(matches!(session.resume(Reply::Read(Ok(vec![0xff, 0xfe]))), Step::More));
    match session.proceed() {
        Step::Done(Outcome::Source(Err(ResolverError::WasNotUtf8))) => {}
        other => panic!("unexpected step {:?}", other),
    }
}

#[test]
fn file_that_cannot_be_read_is_a_server_issue() {
    let resolver = SourceResolver::new("/srv".to_string(), "reqaz.local".to_string());
    let uri = Uri::parse("/page.html").unwrap();
    let (mut session, _) = resolver.resolve_source(&uri);
    session.resume(Reply::Exists(false));
    assert!(matches!(session.resume(Reply::Read(Err(ReadError::Other))), Step::More));
    match session.proceed() {
        Step::Done(Outcome::Source(Err(e))) => {
            assert!(matches!(e, ResolverError::ServerIssue));
            assert_eq!(e.message(), "There was a server issue");
        }
        other => panic!("unexpected step {:?}", other),
    }
}

#[test]
fn process_html_transforms_a_page_at_hand() {
    let resolver = SourceResolver::new("/srv".to_string(), "reqaz.local".to_string());
    let uri = Uri::parse("http://reqaz.local/dir/page.html").unwrap();
    let (mut session, mut step) = reqaz::html::process_html(
        &resolver,
        &uri,
        "<html><head></head><body><link nib-mod=\"fetch\" href=\"a.css\"></body></html>".to_string(),
    );
    let mut asked = Vec::new();
    let out = loop {
        step = match step {
            Step::More => session.proceed(),
            Step::Ask(Request::Exists(path)) => {
                asked.push(path);
                session.resume(Reply::Exists(false))
            }
            Step::Ask(Request::Read(path)) => {
                asked.push(path);
                session.resume(Reply::Read(Ok(b"b { margin: 0px }".to_vec())))
            }
            Step::Done(Outcome::Page(result)) => break result.unwrap(),
            other => panic!("unexpected step {:?}", other),
        };
    };
    assert_eq!(asked, vec!["/srv/dir/a.css/index.html".to_string(), "/srv/dir/a.css".to_string()]);
    assert_eq!(out, "<html><head><style>b{margin:0}</style></head><body></body></html>");
}

#[test]
fn uri_without_path_cannot_be_moved_to_the_authority() {
    let resolver = SourceResolver::new("/srv".to_string(), "reqaz.local".to_string());
    let uri = Uri { scheme: None, authority: None, path: String::new(), query: None };
    let (mut session, step) = resolver.resolve_source(&uri);
    match step {
        Step::Ask(Request::Exists(path)) => assert_eq!(path, "/srv/index.html"),
        other => panic!("unexpected step {:?}", other),
    }
    session.resume(Reply::Exists(true));
    assert!(matches!(session.resume(Reply::Read(Ok(b"<p></p>".to_vec()))), Step::More));
    match session.proceed() {
        Step::Done(Outcome::Source(Err(e))) => {
            assert!(matches!(e, ResolverError::InvalidUriParts(_)));
            assert_eq!(e.message(), "path missing");
            assert_eq!(e.status(), 500);
        }
        other => panic!("unexpected step {:?}", other),
    }
}

#[test]
fn link_that_does_not_resolve_fails_the_fetch() {
    let e = failure(
        &[("/srv/page.html", "<p nib-mod=\"fetch\" href=\"a b.css\"></p>")],
        &[],
        "/page.html",
    );
    assert_eq!(e.message(), "There was a mod problem: path missing");
}

#[test]
fn link_that_does_not_resolve_fails_the_component() {
    let e = failure(
        &[("/srv/page.html", "<object nib-mod=\"component\" data=\"a b.html\"></object>")],
        &[],
        "/page.html",
    );
    assert_eq!(e.message(), "There was a mod problem: path missing");
}

#[test]
fn body_that_cannot_be_read_fails_the_page() {
    let resolver = SourceResolver::new("/srv".to_string(), "reqaz.local".to_string());
    let uri = Uri::parse("/page.html").unwrap();
    for (page, expected) in [
        ("<a nib-mod=\"fetch\" href=\"https://cdn.test/a.css\"></a>", "There was a mod problem: cut off"),
        ("<object nib-mod=\"component\" data=\"https://cdn.test/c.html\"></object>", "There was a mod problem: cut off"),
    ] {
        let (mut session, mut step) = resolver.resolve_source(&uri);
        let result = loop {
            step = match step {
                Step::Ask(Request::Exists(_)) => session.resume(Reply::Exists(false)),
                Step::Ask(Request::Read(_)) => {
                    session.resume(Reply::Read(Ok(page.as_bytes().to_vec())))
                }
                Step::Ask(Request::Get(_)) => {
                    session.resume(Reply::Got(Err(RemoteError::Io("cut off".to_string()))))
                }
                Step::More => session.proceed(),
                Step::Done(Outcome::Source(result)) => break result,
                other => panic!("unexpected step {:?}", other),
            };
        };
        assert_eq!(result.err().unwrap().message(), expected);
    }
}

#[test]
fn missing_component_fails_the_page() {
    let e = failure(
        &[("/srv/page.html", "<object nib-mod=\"component\" data=\"/none.html\"></object>")],
        &[],
        "/page.html",
    );
    assert_eq!(e.message(), "There was a mod problem: Resource not found");
    let net = failure(
        &[("/srv/page.html", "<object nib-mod=\"component\" data=\"https://cdn.test/c.html\"></object>")],
        &[],
        "/page.html",
    );
    assert_eq!(net.message(), "There was a mod problem: no route");
}

#[test]
fn a_failure_deep_inside_reaches_the_top() {
    let files = [
        ("/srv/page.html", "<object nib-mod=\"component\" data=\"/outer.html\"></object>"),
        ("/srv/outer.html", "<i nib-mod=\"fetch\" href=\"/inner.html\"></i>"),
        ("/srv/inner.html", "<style>a { b: c } }</style>"),
    ];
    let e = failure(&files, &[], "/page.html");
    let message = e.message();
    assert!(message.starts_with(
        "There was a mod problem: There was a mod problem: There was a mod problem: "
    ));
}

#[test]
fn stylesheet_source_is_handed_out_to_be_compiled() {
    let resolver = SourceResolver::new("/srv".to_string(), "reqaz.local".to_string());
    let uri = Uri::parse("/a.scss").unwrap();
    let (mut session, _) = resolver.resolve_source(&uri);
    session.resume(Reply::Exists(false));
    match session.resume(Reply::Read(Ok(b"a { b: c }".to_vec()))) {
        Step::Ask(Request::Compile(source)) => assert_eq!(source, b"a { b: c }".to_vec()),
        other => panic!("unexpected step {:?}", other),
    }
    assert!(matches!(session.resume(Reply::Compiled(Some(b"a{b:c}".to_vec()))), Step::More));
    match session.proceed() {
        Step::Done(Outcome::Source(Ok(resolved))) => {
            assert_eq!(resolved.mime, MediaType::Css);
            assert_eq!(resolved.body, b"a{b:c}".to_vec());
        }
        other => panic!("unexpected step {:?}", other),
    }
}

#[test]
fn stylesheet_is_not_compiled_where_the_uri_names_no_source() {
    let resolver = SourceResolver::new("/srv".to_string(), "reqaz.local".to_string());
    let uri = Uri::parse("/a.css").unwrap();
    let (mut session, _) = resolver.resolve_source(&uri);
    session.resume(Reply::Exists(false));
    assert!(matches!(session.resume(Reply::Read(Ok(b"a { b: c }".to_vec()))), Step::More));
}

#[test]
fn index_page_ends_eight_steps_after_it_was_read() {
    let resolver = SourceResolver::new("/srv".to_string(), "reqaz.local".to_string());
    let uri = Uri::parse("/foo/").unwrap();
    let (mut session, _) = resolver.resolve_source(&uri);
    match session.resume(Reply::Exists(true)) {
        Step::Ask(Request::Read(path)) => assert_eq!(path, "/srv/foo/index.html"),
        other => panic!("unexpected step {:?}", other),
    }
    let body = b"<html><head></head><body>index</body></html>".to_vec();
    assert!(matches!(session.resume(Reply::Read(Ok(body))), Step::More));
    for _ in 0..7 {
        assert!(matches!(session.proceed(), Step::More));
    }
    match session.proceed() {
        Step::Done(Outcome::Source(Ok(resolved))) => {
            assert_eq!(resolved.mime, MediaType::Html);
            assert_eq!(
                resolved.body,
                b"<html><head><style></style></head><body>index</body></html>".to_vec()
            );
        }
        other => panic!("unexpected step {:?}", other),
    }
}

#[test]
fn file_ends_one_step_after_it_was_read() {
    let resolver = SourceResolver::new("/srv".to_string(), "reqaz.local".to_string());
    let uri = Uri::parse("/foo.css").unwrap();
    let (mut session, _) = resolver.resolve_source(&uri);
    match session.resume(Reply::Exists(false)) {
        Step::Ask(Request::Read(path)) => assert_eq!(path, "/srv/foo.css"),
        other => panic!("unexpected step {:?}", other),
    }
    let body = b"a { color: red }".to_vec();
    assert!(matches!(session.resume(Reply::Read(Ok(body))), Step::More));
    match session.proceed() {
        Step::Done(Outcome::Source(Ok(resolved))) => {
            assert_eq!(resolved.mime, MediaType::Css);
            assert_eq!(resolved.body, b"a { color: red }".to_vec());
        }
        other => panic!("unexpected step {:?}", other),
    }
}
