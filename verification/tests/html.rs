use east::{attribute_name, dyn_attribute, render, render_dynamic_component, DynAttribute, Node, PreEscaped};

fn text(s: &str) -> Node {
    Node::Text(s.to_string())
}

fn element(tag: &str, attributes: Vec<(&str, &str)>, children: Vec<Node>) -> Node {
    Node::Element {
        tag: tag.to_string(),
        attributes: attributes
            .into_iter()
            .map(|(n, v)| (n.to_string(), v.to_string()))
            .collect(),
        children,
    }
}

#[test]
fn render_empty_is_empty() {
    assert_eq!(render(&vec![]).0, "");
}

#[test]
fn render_element_without_children() {
    let m = render(&vec![element("br", vec![], vec![])]);
    assert_eq!(m.0, "<br></br>");
}

#[test]
fn render_attributes_are_named_and_escaped() {
    let m = render(&vec![element(
        "a",
        vec![("href", "/x?a=1&b=\"2\""), ("data_role", "link")],
        vec![text("go")],
    )]);
    assert_eq!(
        m.0,
        "<a href=\"/x?a=1&amp;b=&quot;2&quot;\" data-role=\"link\">go</a>"
    );
}

#[test]
fn render_nested_and_mixed_children() {
    let m = render(&vec![
        text("a<b"),
        element(
            "ul",
            vec![],
            vec![
                element("li", vec![], vec![text("one")]),
                Node::Markup(PreEscaped("<li>two</li>".to_string())),
            ],
        ),
    ]);
    assert_eq!(m.0, "a&lt;b<ul><li>one</li><li>two</li></ul>");
}

#[test]
fn render_of_concatenation_is_concatenation() {
    let a = || vec![element("p", vec![("class", "x")], vec![text("1")])];
    let b = || vec![text("<2>"), Node::Markup(PreEscaped("<hr>".to_string()))];
    let mut both = a();
    both.extend(b());
    assert_eq!(render(&both).0, format!("{}{}", render(&a()).0, render(&b()).0));
}

#[test]
fn text_nodes_never_write_markup() {
    let m = render(&vec![text("<script>\"evil\"</script>")]);
    assert!(!m.0.contains('<') && !m.0.contains('>') && !m.0.contains('"'));
}

#[test]
fn attribute_names_use_dashes() {
    assert_eq!(attribute_name("data_component"), "data-component");
    assert_eq!(attribute_name("class"), "class");
    assert_eq!(attribute_name("__x_"), "--x-");
}

#[test]
fn dyn_attribute_recognises_events() {
    assert_eq!(dyn_attribute("on_click"), DynAttribute::Event("click".to_string()));
    assert_eq!(
        dyn_attribute("on_mouse_over"),
        DynAttribute::Event("mouse-over".to_string())
    );
    assert_eq!(dyn_attribute("on_"), DynAttribute::Event(String::new()));
    assert_eq!(dyn_attribute("class"), DynAttribute::Attribute("class".to_string()));
    assert_eq!(dyn_attribute("on"), DynAttribute::Attribute("on".to_string()));
    assert_eq!(dyn_attribute("one"), DynAttribute::Attribute("one".to_string()));
}

#[test]
fn dynamic_component_with_data() {
    let m = render_dynamic_component(
        Some("{\"Counter\":{\"id\":1}}".to_string()),
        "<button>Click me 1</button>".to_string(),
    );
    assert_eq!(
        m.0,
        "<div data-component=\"{&quot;Counter&quot;:{&quot;id&quot;:1}}\"><button>Click me 1</button></div>"
    );
}

#[test]
fn dynamic_component_without_data() {
    let m = render_dynamic_component(None, "<p>x</p>".to_string());
    assert_eq!(m.0, "<div><p>x</p></div>");
}

fn unescape(s: &str) -> String {
    s.replace("&quot;", "\"")
        .replace("&lt;", "<")
        .replace("&gt;", ">")
        .replace("&amp;", "&")
}

#[test]
fn dynamic_component_data_reads_back() {
    let json = "{\"text\":\"a <b> & \\\"c\\\"\"}";
    let m = render_dynamic_component(Some(json.to_string()), "<p>x</p>".to_string());
    let prefix = "<div data-component=\"";
    assert!(m.0.starts_with(prefix));
    let rest = &m.0[prefix.len()..];
    let end = rest.find('"').unwrap();
    assert_eq!(unescape(&rest[..end]), json);
    assert_eq!(&rest[end..], "\"><p>x</p></div>");
}
