use reqaz::html::attr::GetAttr;
use reqaz::html::dom::{Attribute, Document, NodeKind, Selector};
use reqaz::html::listing::Record;
use reqaz::html::markup::reserialize;

fn element(doc: &mut Document, local: &str, attrs: &[(&str, &str)]) -> usize {
    doc.create(
        NodeKind::Element { ns: "http://www.w3.org/1999/xhtml".to_string(), local: local.to_string() },
        attrs
            .iter()
            .map(|a| Attribute { ns: String::new(), local: a.0.to_string(), value: a.1.to_string() })
            .collect(),
    )
}

fn by_name(name: &str) -> Selector {
    Selector { name: Some(name.to_string()), token: None }
}

#[test]
fn nodes_keep_their_index() {
    let mut doc = Document::new();
    assert_eq!(doc.len(), 0);
    let root = doc.create_fragment();
    let a = doc.create_element("a");
    let t = doc.create_text("x".to_string());
    assert_eq!((root, a, t), (0, 1, 2));
    assert_eq!(doc.len(), 3);
    doc.append(root, a);
    doc.append(a, t);
    doc.detach(a);
    assert_eq!(doc.parent(a), None);
    assert_eq!(doc.parent(t), Some(a));
    assert_eq!(doc.children(root), &Vec::<usize>::new());
    assert_eq!(doc.children(a), &vec![t]);
    assert!(matches!(doc.kind(t), NodeKind::Text(s) if s == "x"));
}

#[test]
fn append_moves_a_node() {
    let mut doc = Document::new();
    let one = doc.create_fragment();
    let two = doc.create_fragment();
    let a = doc.create_element("a");
    let b = doc.create_element("b");
    doc.append(one, a);
    doc.append(one, b);
    doc.append(two, a);
    assert_eq!(doc.children(one), &vec![b]);
    assert_eq!(doc.children(two), &vec![a]);
    assert_eq!(doc.parent(a), Some(two));
    doc.append(two, a);
    assert_eq!(doc.children(two), &vec![a]);
}

#[test]
fn insert_after_puts_a_sibling_behind() {
    let mut doc = Document::new();
    let root = doc.create_fragment();
    let a = doc.create_element("a");
    let b = doc.create_element("b");
    let c = doc.create_element("c");
    doc.append(root, a);
    doc.append(root, b);
    doc.insert_after(a, c);
    assert_eq!(doc.children(root), &vec![a, c, b]);
    doc.insert_after(b, a);
    assert_eq!(doc.children(root), &vec![c, b, a]);
    assert_eq!(doc.render(root), "<c></c><b></b><a></a>");
}

#[test]
fn insert_after_a_root_leaves_the_node_alone() {
    let mut doc = Document::new();
    let root = doc.create_fragment();
    let a = doc.create_element("a");
    doc.append(root, a);
    doc.insert_after(root, a);
    assert_eq!(doc.parent(a), None);
    assert_eq!(doc.children(root), &Vec::<usize>::new());
}

#[test]
fn document_order_and_text() {
    let mut doc = Document::new();
    let root = doc.parse_html("<html><head><title>T</title></head><body><p>a<b>b</b>c</p><!--no-->d</body></html>").unwrap();
    assert_eq!(doc.text_contents(root), "Tabcd");
    let order = doc.descendants(root);
    assert_eq!(order.len(), 13);
    assert_eq!(order, (root..root + 13).collect::<Vec<usize>>());
    let p = doc.select(root, &by_name("p"));
    assert_eq!(p.len(), 1);
    assert_eq!(doc.text_contents(p[0]), "abc");
}

#[test]
fn selection_by_name_and_token() {
    let mut doc = Document::new();
    let root = doc.parse_html(
        "<body><link nib-mod=\"component\"><object nib-mod=\"a component b\"></object><object nib-mod=\"components\"></object><p nib-mod=\"fetch component\"></p></body>",
    ).unwrap();
    let token = |t: &str| Selector { name: None, token: Some(t.to_string()) };
    assert_eq!(doc.select(root, &token("component")).len(), 3);
    assert_eq!(doc.select(root, &token("fetch")).len(), 1);
    let objects = Selector { name: Some("object".to_string()), token: Some("component".to_string()) };
    let found = doc.select(root, &objects);
    assert_eq!(found.len(), 1);
    assert_eq!(doc.node(found[0]).get_attr("nib-mod"), Some("a component b".to_string()));
    assert_eq!(doc.node(found[0]).get_attr("href"), None);
    assert_eq!(doc.select(root, &by_name("body")).len(), 1);
    assert_eq!(doc.select(root, &by_name("table")).len(), 0);
}

#[test]
fn markup_round_trip() {
    let text = "<!DOCTYPE html><html lang=\"en\"><head><meta charset=\"utf-8\"></head><body class=\"a b\"><p>1 &lt; 2 &amp; 3</p><br><!-- c --><svg viewBox=\"0 0 1 1\"><path d=\"M0 0\"></path></svg></body></html>";
    let mut doc = Document::new();
    let root = doc.parse_html(text).unwrap();
    assert_eq!(doc.render(root), text);
}

#[test]
fn fragment_parses_under_one_element() {
    let mut doc = Document::new();
    let root = doc.parse_fragment("<li>a</li>text<li>b</li>").unwrap();
    assert_eq!(doc.children(root).len(), 1);
    let holder = doc.children(root)[0];
    assert!(matches!(doc.kind(holder), NodeKind::Element { local, .. } if local == "html"));
    assert_eq!(doc.children(holder).len(), 3);
    let target = doc.create_element("ul");
    doc.move_children(holder, target);
    assert_eq!(doc.render(target), "<ul><li>a</li>text<li>b</li></ul>");
    assert_eq!(doc.children(holder).len(), 0);
}

#[test]
fn grafting_a_flat_tree() {
    let record = |depth: usize, kind: NodeKind| Record { depth, kind, attrs: Vec::new() };
    let el = |local: &str| NodeKind::Element {
        ns: "http://www.w3.org/1999/xhtml".to_string(),
        local: local.to_string(),
    };
    let mut doc = Document::new();
    doc.create_fragment();
    let root = doc.graft(&vec![
        record(0, NodeKind::Fragment),
        record(1, el("a")),
        record(2, el("b")),
        record(3, NodeKind::Text("x".to_string())),
        record(2, el("c")),
        record(1, el("d")),
    ]);
    assert_eq!(root, 1);
    assert_eq!(doc.children(1), &vec![2, 6]);
    assert_eq!(doc.children(2), &vec![3, 5]);
    assert_eq!(doc.children(3), &vec![4]);
    assert_eq!(doc.parent(5), Some(2));
    assert_eq!(doc.render(root), "<a><b>x</b><c></c></a><d></d>");
}

#[test]
fn attributes_are_read_by_name() {
    let mut doc = Document::new();
    let a = element(&mut doc, "a", &[("href", "/x"), ("class", "k")]);
    assert_eq!(doc.node(a).get_attr("href"), Some("/x".to_string()));
    assert_eq!(doc.node(a).get_attr("class"), Some("k".to_string()));
    assert_eq!(doc.node(a).get_attr("id"), None);
    assert_eq!(doc.render(a), "<a href=\"/x\" class=\"k\"></a>");
}

#[test]
fn text_is_escaped_on_the_way_out() {
    let mut doc = Document::new();
    let p = doc.create_element("p");
    let t = doc.create_text("a < b & c".to_string());
    doc.append(p, t);
    assert_eq!(doc.render(p), "<p>a &lt; b &amp; c</p>");
    let s = doc.create_element("style");
    let css = doc.create_text("a > b { }".to_string());
    doc.append(s, css);
    assert_eq!(doc.render(s), "<style>a > b { }</style>");
}

#[test]
fn reserialized_text_is_what_the_parser_makes_of_it() {
    assert_eq!(
        reserialize("<title>t</title><p>a<p>b").unwrap(),
        "<html><head><title>t</title></head><body><p>a</p><p>b</p></body></html>"
    );
    assert_eq!(reserialize("").unwrap(), "<html><head></head><body></body></html>");
    let once = reserialize("<table><tr><td>x</table>").unwrap();
    assert_eq!(
        once,
        "<html><head></head><body><table><tbody><tr><td>x</td></tr></tbody></table></body></html>"
    );
    assert_eq!(reserialize(once.as_str()).unwrap(), once);
}
