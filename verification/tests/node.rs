use east::{is_html_tag, Attribute, AttributeOrChild, Child, ChildPlan, Element, PathSegment, TagPath, HTML_TAGS};

fn path(segments: &[&str]) -> TagPath {
    TagPath {
        leading_colon: false,
        segments: segments
            .iter()
            .map(|s| PathSegment { ident: s.to_string(), has_arguments: false })
            .collect(),
    }
}

fn element(tag: TagPath) -> Element<u32> {
    Element {
        tag,
        attributes_or_children: vec![
            AttributeOrChild::Attribute(Attribute { name: "class".to_string(), value: 1 }),
            AttributeOrChild::Child(Child::Expr(2)),
            AttributeOrChild::Attribute(Attribute { name: "id".to_string(), value: 3 }),
            AttributeOrChild::Child(Child::Element(Element {
                tag: path(&["span"]),
                attributes_or_children: vec![],
            })),
            AttributeOrChild::Child(Child::Expr(4)),
        ],
    }
}

#[test]
fn html_tag_of_known_tags() {
    assert_eq!(element(path(&["div"])).html_tag(), Some("div".to_string()));
    assert_eq!(element(path(&["DOCTYPE"])).html_tag(), Some("DOCTYPE".to_string()));
    assert_eq!(element(path(&["h6"])).html_tag(), Some("h6".to_string()));
}

#[test]
fn html_tag_of_components_is_none() {
    assert_eq!(element(path(&["Counter"])).html_tag(), None);
    assert_eq!(element(path(&["Div"])).html_tag(), None);
    assert_eq!(element(path(&["ui", "div"])).html_tag(), None);
    let mut leading = path(&["div"]);
    leading.leading_colon = true;
    assert_eq!(element(leading).html_tag(), None);
    let mut with_args = path(&["div"]);
    with_args.segments[0].has_arguments = true;
    assert_eq!(element(with_args).html_tag(), None);
}

#[test]
fn attributes_in_order() {
    let e = element(path(&["div"]));
    let attributes = e.attributes();
    assert_eq!(attributes.len(), 2);
    assert_eq!(attributes[0].name, "class");
    assert_eq!(attributes[0].value, 1);
    assert_eq!(attributes[1].name, "id");
    assert_eq!(attributes[1].value, 3);
}

#[test]
fn children_in_order() {
    let e = element(path(&["div"]));
    let children = e.children();
    assert_eq!(children.len(), 3);
    assert!(matches!(children[0], Child::Expr(2)));
    assert!(matches!(children[1], Child::Element(_)));
    assert!(matches!(children[2], Child::Expr(4)));
    assert_eq!(e.attributes().len() + children.len(), e.attributes_or_children.len());
}

#[test]
fn html_tags_list() {
    assert_eq!(HTML_TAGS.len(), 78);
    for tag in HTML_TAGS.iter() {
        assert!(is_html_tag(tag));
    }
    assert!(is_html_tag("button"));
    assert!(!is_html_tag("section"));
    assert!(!is_html_tag(""));
    assert!(!is_html_tag("DIV"));
}

#[test]
fn get_ident_of_paths() {
    assert_eq!(path(&["x"]).get_ident(), Some(&"x".to_string()));
    assert_eq!(path(&["a", "b"]).get_ident(), None);
    assert_eq!(path(&[]).get_ident(), None);
}

#[test]
fn plan_child_chooses_how_to_write() {
    let html = Child::Element(element(path(&["div"])));
    match east::plan_child(&html) {
        ChildPlan::Html { tag, attributes, children } => {
            assert_eq!(tag, "div");
            assert_eq!(attributes.len(), 2);
            assert_eq!(children.len(), 3);
        }
        _ => panic!("a div is an HTML element"),
    }

    let with_children = Child::Element(element(path(&["Layout"])));
    match east::plan_child(&with_children) {
        ChildPlan::ComponentWithChildren { attributes, children, .. } => {
            assert_eq!(attributes.len(), 2);
            assert_eq!(children.len(), 3);
        }
        _ => panic!("a component with children renders through RenderMulti"),
    }

    let bare: Child<u32> = Child::Element(Element {
        tag: path(&["Counter"]),
        attributes_or_children: vec![AttributeOrChild::Attribute(Attribute {
            name: "id".to_string(),
            value: 7,
        })],
    });
    match east::plan_child(&bare) {
        ChildPlan::Component { attributes, .. } => assert_eq!(attributes[0].value, 7),
        _ => panic!("a component without children renders through Render"),
    }

    let expr: Child<u32> = Child::Expr(9);
    assert!(matches!(east::plan_child(&expr), ChildPlan::Expr(9)));
}

#[test]
fn attributes_and_children_merge_back() {
    let e = element(path(&["div"]));
    let mut attributes = e.attributes().into_iter();
    let mut children = e.children().into_iter();
    for entry in e.attributes_or_children.iter() {
        match entry {
            AttributeOrChild::Attribute(a) => {
                assert!(std::ptr::eq(attributes.next().unwrap(), a));
            }
            AttributeOrChild::Child(c) => {
                assert!(std::ptr::eq(children.next().unwrap(), c));
            }
        }
    }
    assert!(attributes.next().is_none());
    assert!(children.next().is_none());
}
