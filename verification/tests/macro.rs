use east::{render, Markup, Node, NoComponent, RenderMulti};

pub struct Index;

impl<AnyComponent> RenderMulti<AnyComponent> for Index {
    fn render_multi(self, children: Markup) -> Markup {
        render(&vec![Node::Element {
            tag: "div".to_string(),
            attributes: vec![("class".to_string(), "test-class".to_string())],
            children: vec![
                Node::Text("This is a test page.".to_string()),
                Node::Markup(children),
            ],
        }])
    }
}

#[test]
fn test_basic_macro() {
    let button = render(&vec![Node::Element {
        tag: "button".to_string(),
        attributes: vec![],
        children: vec![Node::Text("Click me!".to_string())],
    }]);
    let view = render(&vec![Node::Markup(RenderMulti::<NoComponent>::render_multi(
        Index, button,
    ))]);
    assert_eq!(
        view.0,
        "<div class=\"test-class\">This is a test page.<button>Click me!</button></div>"
    );
}

pub struct Greeting;

impl<AnyComponent> east::Render<AnyComponent> for Greeting {
    fn render(self) -> Markup {
        render(&vec![Node::Text("hi & bye".to_string())])
    }
}

#[test]
fn user_components_render() {
    let m = east::Render::<NoComponent>::render(Greeting);
    assert_eq!(m.0, "hi &amp; bye");
}
