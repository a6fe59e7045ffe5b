use reqaz::html::attr::{Href, Uri};
use reqaz::html::dom::{Document, NodeKind, Selector};
use reqaz::html::mods::component::{
    get_props_from_link, get_props_from_object, html_from_string, process_props, strip_all,
    ComponentData, ComponentJob, Props,
};
use reqaz::html::mods::css;
use reqaz::html::mods::fetch::{
    get_element_from_extension, insert_response, remote_response, replace, Container, FetchJob,
    FetchResponse, InsertResponseError,
};
use reqaz::html::mods::{HtmlModManager, ModKind};
use reqaz::mediatype::{MediaType, MediaTypeBuf};
use reqaz::source::{Outcome, SourceResolver, Step};

fn page_uri() -> Uri {
    Uri::parse("http://reqaz.local/dir/page.html").unwrap()
}

#[test]
fn container_choice() {
    assert_eq!(get_element_from_extension("css"), Some(Container::Style));
    assert_eq!(get_element_from_extension("scss"), Some(Container::Style));
    assert_eq!(get_element_from_extension("html"), Some(Container::Fragment));
    assert_eq!(get_element_from_extension("svg"), Some(Container::Fragment));
    assert_eq!(get_element_from_extension("txt"), None);
    assert_eq!(get_element_from_extension(""), None);
    assert_eq!(get_element_from_extension("CSS"), None);
    assert_eq!(get_element_from_extension("png"), None);
}

#[test]
fn containers_are_a_style_element_and_a_fragment() {
    let mut doc = Document::new();
    let style = Container::Style.create(&mut doc);
    let fragment = Container::Fragment.create(&mut doc);
    assert!(matches!(doc.kind(style), NodeKind::Element { local, .. } if local == "style"));
    assert!(matches!(doc.kind(fragment), NodeKind::Fragment));
    assert_eq!(doc.render(style), "<style></style>");
    assert_eq!(doc.render(fragment), "");
}

#[test]
fn responses_are_inserted_by_media_type() {
    let mut doc = Document::new();
    let style = Container::Style.create(&mut doc);
    let css = FetchResponse { body: b"a > b {}".to_vec(), mime: MediaTypeBuf::of(MediaType::Css) };
    assert!(insert_response(&mut doc, style, css).is_ok());
    assert_eq!(doc.render(style), "<style>a > b {}</style>");

    let fragment = Container::Fragment.create(&mut doc);
    let html = FetchResponse {
        body: b"<p>1</p><p>2</p>".to_vec(),
        mime: MediaTypeBuf::declared("Text/HTML"),
    };
    assert!(insert_response(&mut doc, fragment, html).is_ok());
    assert_eq!(doc.render(fragment), "<p>1</p><p>2</p>");

    let other = Container::Fragment.create(&mut doc);
    let png = FetchResponse { body: vec![1, 2, 3], mime: MediaTypeBuf::of(MediaType::Png) };
    let refused = insert_response(&mut doc, other, png).err().unwrap();
    assert_eq!(refused.0.name, "image/png");
    assert_eq!(refused.message(), "Invalid mediatype: `image/png`");
    let plain = FetchResponse { body: vec![1], mime: MediaTypeBuf::declared("text/plain") };
    let refused = insert_response(&mut doc, other, plain).err().unwrap();
    assert_eq!(refused.message(), "Invalid mediatype: `text/plain`");
    let broken = FetchResponse { body: vec![1], mime: MediaTypeBuf::declared("no type") };
    let refused = insert_response(&mut doc, other, broken).err().unwrap();
    assert_eq!(refused.message(), "Invalid mediatype: `application/octet-stream`");
    assert_eq!(
        InsertResponseError(MediaTypeBuf::of(MediaType::Gif)).message(),
        "Invalid mediatype: `image/gif`"
    );
}

#[test]
fn bytes_that_are_no_text_count_as_empty() {
    let mut doc = Document::new();
    let style = Container::Style.create(&mut doc);
    let css = FetchResponse { body: vec![0xff, 0xfe], mime: MediaTypeBuf::of(MediaType::Css) };
    assert!(insert_response(&mut doc, style, css).is_ok());
    assert_eq!(doc.render(style), "<style></style>");
    assert_eq!(doc.children(style).len(), 1);
}

#[test]
fn remote_responses_take_their_type_from_the_content_type() {
    assert_eq!(remote_response("text/css", vec![1]).mime.known(), MediaType::Css);
    assert_eq!(remote_response("image/svg+xml", vec![1]).mime.known(), MediaType::Svg);
    assert_eq!(remote_response("", vec![1]).mime.known(), MediaType::OctetStream);
    assert_eq!(remote_response("", vec![1]).mime.name, "application/octet-stream");
    assert_eq!(remote_response("text/plain", vec![1]).mime.name, "text/plain");
    assert_eq!(remote_response("text/plain", vec![1]).mime.known(), MediaType::OctetStream);
    assert_eq!(remote_response("text/css", vec![1, 2]).body, vec![1, 2]);
}

#[test]
fn fetch_jobs() {
    let fetch = reqaz::html::mods::fetch::Mod::new(page_uri());
    match fetch.perform_fetch(Href::try_from("a.css").unwrap()) {
        FetchJob::Internal(uri, Container::Style) => {
            assert_eq!(uri.text(), "http://reqaz.local/dir/a.css")
        }
        _ => panic!("unexpected job"),
    }
    match fetch.perform_fetch(Href::try_from("https://x/y.html").unwrap()) {
        FetchJob::External(uri, Container::Fragment) => assert_eq!(uri.text(), "https://x/y.html"),
        _ => panic!("unexpected job"),
    }
    match fetch.perform_fetch(Href::try_from("/a.txt").unwrap()) {
        FetchJob::Fail(e) => assert_eq!(e.message(), "Invalid href: /a.txt"),
        _ => panic!("unexpected job"),
    }
    assert!(matches!(
        fetch.perform_fetch(Href::try_from("/a.css/").unwrap()),
        FetchJob::Internal(_, Container::Style)
    ));
    assert!(matches!(fetch.perform_fetch(Href::try_from("/a").unwrap()), FetchJob::Fail(_)));
    assert!(matches!(
        fetch.perform_fetch(Href::try_from("javascript:a.css").unwrap()),
        FetchJob::Fail(_)
    ));
    assert!(matches!(fetch.perform_fetch(Href::try_from("a b.css").unwrap()), FetchJob::Fail(_)));
}

#[test]
fn fetch_targets_and_plans() {
    let mut doc = Document::new();
    let root = doc.parse_html(
        "<body><i nib-mod=\"fetch\" href=\"/a.css\"></i><i nib-mod=\"fetch\"></i><i href=\"/b.css\"></i><i nib-mod=\"fetch\" href=\"x://\"></i></body>",
    ).unwrap();
    let fetch = reqaz::html::mods::fetch::Mod::new(page_uri());
    let targets = fetch.targets(&doc, root);
    assert_eq!(targets.len(), 3);
    assert!(matches!(fetch.plan(&doc, targets[0]), FetchJob::Internal(_, Container::Style)));
    assert!(matches!(fetch.plan(&doc, targets[1]), FetchJob::Skip));
    assert!(matches!(fetch.plan(&doc, targets[2]), FetchJob::Skip));
}

#[test]
fn replacing_an_element() {
    let mut doc = Document::new();
    let root = doc.parse_fragment("<a></a><b></b>").unwrap();
    let holder = doc.children(root)[0];
    let a = doc.children(holder)[0];
    let new = doc.create_element("n");
    replace(&mut doc, a, new);
    assert_eq!(doc.render(holder), "<html><n></n><b></b></html>");
    assert_eq!(doc.parent(a), None);
}

#[test]
fn what_replaces_an_element_is_walked_once() {
    let mut doc = Document::new();
    let root = doc.parse_fragment("<a><i></i></a><b></b>").unwrap();
    let holder = doc.children(root)[0];
    let a = doc.children(holder)[0];
    let i = doc.children(a)[0];
    let new = doc.create_element("n");
    replace(&mut doc, i, new);
    let walk = doc.descendants(root);
    assert_eq!(walk.iter().filter(|n| **n == new).count(), 1);
    assert_eq!(walk.iter().filter(|n| **n == i).count(), 0);
    assert_eq!(walk, vec![root, holder, a, new, doc.children(holder)[1]]);
}

#[test]
fn css_transform_bundles_into_the_head() {
    let mut doc = Document::new();
    let root = doc.parse_html("<html><head></head><body><style>a { color: red }</style><p><style>b { color: red }</style></p></body></html>").unwrap();
    assert!(css::Mod.modify(&mut doc, root).is_ok());
    assert_eq!(
        doc.render(root),
        "<html><head><style>a,b{color:red}</style></head><body><p></p></body></html>"
    );
}

#[test]
fn css_transform_falls_back_to_the_root() {
    let mut doc = Document::new();
    let root = doc.create_fragment();
    let style = doc.create_element("style");
    let text = doc.create_text("a { margin: 0px }".to_string());
    doc.append(style, text);
    doc.append(root, style);
    let p = doc.create_element("p");
    doc.append(root, p);
    assert!(css::Mod.modify(&mut doc, root).is_ok());
    assert_eq!(doc.render(root), "<p></p><style>a{margin:0}</style>");
    assert_eq!(doc.parent(style), None);
}

#[test]
fn one_style_element_is_left_and_it_is_the_last_of_the_head() {
    let styles = Selector { name: Some("style".to_string()), token: None };
    let heads = Selector { name: Some("head".to_string()), token: None };
    let mut doc = Document::new();
    let root = doc.parse_html("<html><head><style>a { color: red }</style><title>t</title></head><body><style>b { color: red }</style></body></html>").unwrap();
    assert_eq!(doc.select(root, &styles).len(), 2);
    assert!(css::Mod.modify(&mut doc, root).is_ok());
    let left = doc.select(root, &styles);
    assert_eq!(left.len(), 1);
    let head = doc.select(root, &heads)[0];
    assert_eq!(doc.parent(left[0]), Some(head));
    assert_eq!(doc.children(head).last(), Some(&left[0]));
}

#[test]
fn one_style_element_is_left_and_it_is_the_last_of_the_root() {
    let styles = Selector { name: Some("style".to_string()), token: None };
    let mut doc = Document::new();
    let root = doc.create_fragment();
    let p = doc.create_element("p");
    doc.append(root, p);
    assert!(css::Mod.modify(&mut doc, root).is_ok());
    let left = doc.select(root, &styles);
    assert_eq!(left.len(), 1);
    assert_eq!(doc.parent(left[0]), Some(root));
    assert_eq!(doc.children(root).last(), Some(&left[0]));
}

#[test]
fn css_that_is_no_stylesheet_fails() {
    let mut doc = Document::new();
    let root = doc.parse_html("<style>a { color: red } }</style>").unwrap();
    match css::Mod.modify(&mut doc, root) {
        Err(css::MinifyCssError::Parse(message)) => assert!(!message.is_empty()),
        other => panic!("unexpected result {:?}", other.is_ok()),
    }
}

#[test]
fn props_take_the_value_given_last() {
    let mut props = Props::new();
    assert_eq!(props.get("a"), None);
    props.set("a".to_string(), "1".to_string());
    props.set("b".to_string(), "2".to_string());
    props.set("a".to_string(), "3".to_string());
    assert_eq!(props.get("a"), Some("3".to_string()));
    assert_eq!(props.get("b"), Some("2".to_string()));
    assert_eq!(props.get("c"), None);
    assert_eq!(props.copy().get("a"), Some("3".to_string()));
}

#[test]
fn props_and_slot_of_an_object() {
    let mut doc = Document::new();
    let root = doc.parse_fragment(
        "<object><param name=\"a\" value=\"1\"><p>x</p><param name=\"b\">text<param value=\"c\"><param name=\"a\" value=\"2\"></object>",
    ).unwrap();
    let holder = doc.children(root)[0];
    let object = doc.children(holder)[0];
    let data = get_props_from_object(&mut doc, object);
    assert_eq!(data.props.get("a"), Some("2".to_string()));
    assert_eq!(data.props.get("b"), None);
    assert_eq!(data.props.entries.len(), 2);
    assert_eq!(doc.render(data.slot), "<p>x</p>text");
    assert_eq!(
        doc.render(object),
        "<object><param name=\"a\" value=\"1\"><param name=\"b\"><param value=\"c\"><param name=\"a\" value=\"2\"></object>"
    );
}

#[test]
fn props_of_a_link() {
    let mut doc = Document::new();
    let root = doc.parse_fragment(
        "<link href=\"/c.html\" nib-prop-title=\"T\" nib-prop-nib-prop-x=\"X\" data-nib-prop-y=\"Y\">",
    ).unwrap();
    let holder = doc.children(root)[0];
    let link = doc.children(holder)[0];
    let data = get_props_from_link(&mut doc, link);
    assert_eq!(data.props.get("title"), Some("T".to_string()));
    assert_eq!(data.props.get("x"), Some("X".to_string()));
    assert_eq!(data.props.get("y"), None);
    assert_eq!(data.props.entries.len(), 2);
    assert_eq!(doc.children(data.slot).len(), 0);
}

#[test]
fn stripping_a_pattern() {
    let chars = |s: &str| s.chars().collect::<Vec<char>>();
    let text = |v: Vec<char>| v.into_iter().collect::<String>();
    assert_eq!(text(strip_all(&chars("nib-prop-a"), &chars("nib-prop-"))), "a");
    assert_eq!(text(strip_all(&chars("nib-prop-nib-prop-a"), &chars("nib-prop-"))), "a");
    assert_eq!(text(strip_all(&chars("aXbXc"), &chars("X"))), "abc");
    assert_eq!(text(strip_all(&chars("aaa"), &chars("aa"))), "a");
    assert_eq!(text(strip_all(&chars("abc"), &chars("abcd"))), "abc");
    assert_eq!(text(strip_all(&chars(""), &chars("a"))), "");
    assert_eq!(text(strip_all(&chars("abc"), &chars(""))), "abc");
}

#[test]
fn fragment_from_a_string() {
    let mut doc = Document::new();
    let el = html_from_string(&mut doc, "<b>1</b>2").unwrap();
    assert!(matches!(doc.kind(el), NodeKind::Fragment));
    assert_eq!(doc.render(el), "<b>1</b>2");
    let empty = html_from_string(&mut doc, "").unwrap();
    assert_eq!(doc.render(empty), "");
}

#[test]
fn placeholders_are_replaced() {
    let mut doc = Document::new();
    let html = html_from_string(
        &mut doc,
        "<div><param name=\"a\"><param name=\"a\" value=\"kept\"><param><source slot><source src=\"x\"><span><param name=\"none\"></span></div>",
    )
    .unwrap();
    let slot = html_from_string(&mut doc, "<i>slot</i>").unwrap();
    let mut props = Props::new();
    props.set("a".to_string(), "<A>".to_string());
    let data = ComponentData { props, slot };
    process_props(&mut doc, html, &data, usize::MAX);
    assert_eq!(
        doc.render(html),
        "<div>&lt;A&gt;<param name=\"a\" value=\"kept\"><param><i>slot</i><source src=\"x\"><span></span></div>"
    );
}

#[test]
fn slot_goes_to_the_last_place_that_asks_for_it() {
    let mut doc = Document::new();
    let html = html_from_string(&mut doc, "<p><source slot></p><q><source slot=\"\"></q>").unwrap();
    let slot = html_from_string(&mut doc, "<i>slot</i>").unwrap();
    let data = ComponentData { props: Props::new(), slot };
    process_props(&mut doc, html, &data, usize::MAX);
    assert_eq!(doc.render(html), "<p></p><q><i>slot</i></q>");
}

#[test]
fn title_placeholders_are_replaced() {
    let mut doc = Document::new();
    let html = html_from_string(
        &mut doc,
        "<title>&lt;param name=\"t\"&gt; - site</title><title></title>",
    )
    .unwrap();
    let slot = doc.create_fragment();
    let mut props = Props::new();
    props.set("t".to_string(), "Home & more".to_string());
    let data = ComponentData { props, slot };
    process_props(&mut doc, html, &data, usize::MAX);
    assert_eq!(doc.render(html), "<title>Home &amp;amp; more - site</title><title></title>");
}

#[test]
fn title_is_left_alone_at_depth_zero() {
    let mut doc = Document::new();
    let html = html_from_string(&mut doc, "<title>&lt;param name=\"t\"&gt;</title>").unwrap();
    let slot = doc.create_fragment();
    let data = ComponentData { props: Props::new(), slot };
    process_props(&mut doc, html, &data, 0);
    assert_eq!(doc.render(html), "<title>&lt;param name=\"t\"&gt;</title>");
}

#[test]
fn component_jobs() {
    let component = reqaz::html::mods::component::Mod::new(page_uri());
    match component.perform_fetch(Href::try_from("/c.html").unwrap()) {
        ComponentJob::Internal(uri) => assert_eq!(uri.text(), "http://reqaz.local/c.html"),
        _ => panic!("unexpected job"),
    }
    assert!(matches!(
        component.perform_fetch(Href::try_from("https://x/c.html").unwrap()),
        ComponentJob::External(_)
    ));
    match component.perform_fetch(Href::try_from("/c.css").unwrap()) {
        ComponentJob::Fail(e) => {
            assert_eq!(e.message(), "The component at the specific link is not valid HTML")
        }
        _ => panic!("unexpected job"),
    }
    assert!(matches!(
        component.perform_fetch(Href::try_from("javascript:c.html").unwrap()),
        ComponentJob::Fail(_)
    ));
}

#[test]
fn components_are_objects_first_then_links() {
    let mut doc = Document::new();
    let root = doc.parse_html(
        "<head><link nib-mod=\"component\" href=\"/a.html\"></head><body><object nib-mod=\"component\" data=\"/b.html\"></object><link nib-mod=\"component\"><object></object></body>",
    ).unwrap();
    let component = reqaz::html::mods::component::Mod::new(page_uri());
    let targets = component.targets(&doc, root);
    assert_eq!(targets.len(), 3);
    assert!(matches!(doc.kind(targets[0]), NodeKind::Element { local, .. } if local == "object"));
    assert!(matches!(doc.kind(targets[1]), NodeKind::Element { local, .. } if local == "link"));
    assert!(targets[1] < targets[0]);
    let (_, job) = component.plan(&mut doc, targets[0]);
    assert!(matches!(job, ComponentJob::Internal(_)));
    let (_, job) = component.plan(&mut doc, targets[2]);
    assert!(matches!(job, ComponentJob::Skip));
}

#[test]
fn remote_component_must_be_html() {
    let component = reqaz::html::mods::component::Mod::new(page_uri());
    assert_eq!(component.accept_remote("text/html", vec![1]).ok(), Some(vec![1]));
    assert!(component.accept_remote("text/css", vec![1]).is_err());
}

#[test]
fn component_body_that_is_no_text_is_no_html() {
    let component = reqaz::html::mods::component::Mod::new(page_uri());
    let mut doc = Document::new();
    let slot = doc.create_fragment();
    let data = ComponentData { props: Props::new(), slot };
    let e = component.expand(&mut doc, vec![0xff], &data).err().unwrap();
    assert_eq!(e.message(), "The component at the specific link is not valid HTML");
}

#[test]
fn manager_knows_the_three_transforms() {
    assert_eq!(HtmlModManager::load_mod("fetch"), Some(ModKind::Fetch));
    assert_eq!(HtmlModManager::load_mod("css"), Some(ModKind::Css));
    assert_eq!(HtmlModManager::load_mod("component"), Some(ModKind::Component));
    assert_eq!(HtmlModManager::load_mod("script"), None);
    let mut manager = HtmlModManager::new(page_uri());
    manager.load_mods(&vec![
        "css".to_string(),
        "nothing".to_string(),
        "fetch".to_string(),
        "css".to_string(),
    ]);
    assert_eq!(manager.mods, vec![ModKind::Css, ModKind::Fetch]);
    manager.load_mods(&vec!["fetch".to_string(), "component".to_string()]);
    assert_eq!(manager.mods, vec![ModKind::Css, ModKind::Fetch, ModKind::Component]);
    assert!(manager.has_mod(ModKind::Component));
    assert_eq!(manager.get_mod(1), Some(ModKind::Fetch));
    assert_eq!(manager.get_mod(2), Some(ModKind::Component));
    assert_eq!(manager.get_mod(3), None);
    let standard = HtmlModManager::standard(page_uri());
    assert_eq!(standard.mods, vec![ModKind::Fetch, ModKind::Css, ModKind::Component]);
}

#[test]
fn manager_applies_what_it_has_loaded() {
    let resolver = SourceResolver::new("/srv".to_string(), "reqaz.local".to_string());
    let mut manager = HtmlModManager::new(page_uri());
    manager.load_mods(&vec!["css".to_string()]);
    let html = "<html><head></head><body><style>a { top: 0px }</style><i nib-mod=\"fetch\" href=\"/a.css\"></i></body></html>";
    let missing = manager.apply_mod(&resolver, html.to_string(), "fetch").err().unwrap();
    assert_eq!(missing.message(), "Mod does not exist");
    let unknown = manager.apply_mod(&resolver, html.to_string(), "nothing").err().unwrap();
    assert_eq!(unknown.message(), "Mod does not exist");
    let (mut session, mut step) = manager.apply_mod(&resolver, html.to_string(), "css").unwrap();
    let out = loop {
        step = match step {
            Step::More => session.proceed(),
            Step::Done(Outcome::Page(result)) => break result.unwrap(),
            other => panic!("unexpected step {:?}", other),
        };
    };
    assert_eq!(
        out,
        "<html><head><style>a{top:0}</style></head><body><i nib-mod=\"fetch\" href=\"/a.css\"></i></body></html>"
    );
    let (mut session, mut step) = manager.apply_mods(&resolver, "<p>x</p>".to_string());
    let all = loop {
        step = match step {
            Step::More => session.proceed(),
            Step::Done(Outcome::Page(result)) => break result.unwrap(),
            other => panic!("unexpected step {:?}", other),
        };
    };
    assert_eq!(all, "<html><head><style></style></head><body><p>x</p></body></html>");
}

#[test]
fn title_text_has_its_entities_decoded_before_it_is_parsed() {
    let mut doc = Document::new();
    let html = html_from_string(&mut doc, "<title>&amp;lt;b&amp;gt;x&amp;lt;/b&amp;gt;</title>").unwrap();
    let slot = doc.create_fragment();
    let data = ComponentData { props: Props::new(), slot };
    process_props(&mut doc, html, &data, usize::MAX);
    assert_eq!(doc.render(html), "<title>&lt;b&gt;x&lt;/b&gt;</title>");
}

#[test]
fn media_types_by_name() {
    assert!(reqaz::mediatype::is_well_formed("text/plain"));
    assert!(reqaz::mediatype::is_well_formed("image/svg+xml"));
    assert!(reqaz::mediatype::is_well_formed("Application/Vnd.api-v1"));
    assert!(!reqaz::mediatype::is_well_formed(""));
    assert!(!reqaz::mediatype::is_well_formed("text"));
    assert!(!reqaz::mediatype::is_well_formed("text/"));
    assert!(!reqaz::mediatype::is_well_formed("/plain"));
    assert!(!reqaz::mediatype::is_well_formed("text/plain/x"));
    assert!(!reqaz::mediatype::is_well_formed("text /plain"));
    assert!(!reqaz::mediatype::is_well_formed("-text/plain"));
    assert!(!reqaz::mediatype::is_well_formed("text/plain; charset=utf-8"));
    let long = format!("a/{}", "b".repeat(128));
    assert!(!reqaz::mediatype::is_well_formed(long.as_str()));
    let fits = format!("a/{}", "b".repeat(127));
    assert!(reqaz::mediatype::is_well_formed(fits.as_str()));
    assert!(MediaTypeBuf::from_string("no type".to_string()).is_none());
    assert_eq!(MediaTypeBuf::from_string("a/b".to_string()).unwrap().essence(), "a/b");
    assert_eq!(MediaTypeBuf::of(MediaType::Svg).name, "image/svg+xml");
}
