use vstd::prelude::*;

use crate::markup::{
    escape_seq, escape_to_string, lemma_escape_no_markup, lemma_unescape_escape, unescape_seq, Markup,
    PreEscaped,
};

verus! {

/// How an attribute identifier is written in HTML: every `_` becomes `-`.
pub open spec fn attribute_name_seq(ident: Seq<char>) -> Seq<char> {
    ident.map_values(|c: char| if c == '_' { '-' } else { c })
}

/// The HTML name of an attribute written as the identifier `ident`
/// (`data_component` is written `data-component`).
pub fn attribute_name(ident: &str) -> (res: String)
    ensures
        res@ == attribute_name_seq(ident@),
{
    let mut res = String::new();
    broadcast use vstd::string::group_string_axioms;
    for c in it: ident.chars()
        invariant
            it.seq() == ident@,
            res@ == attribute_name_seq(ident@.take(it.index() as int)),
    {
        let ghost i = it.index();
        assert(c == ident@[i]);
        if c == '_' {
            res.push('-');
        } else {
            res.push(c);
        }
        assert(res@ =~= attribute_name_seq(ident@.take(i + 1)));
    }
    assert(ident@.take(ident@.len() as int) =~= ident@);
    res
}

/// An attribute's HTML name keeps the identifier's length and characters,
/// with every `_` turned into `-`: no `_` is left.
pub proof fn lemma_attribute_name(ident: Seq<char>)
    ensures
        attribute_name_seq(ident).len() == ident.len(),
        forall|i: int|
            0 <= i < ident.len() ==> #[trigger] attribute_name_seq(ident)[i] == (if ident[i] == '_' {
                '-'
            } else {
                ident[i]
            }),
        forall|i: int| 0 <= i < ident.len() ==> #[trigger] attribute_name_seq(ident)[i] != '_',
{
}

/// The dynamic renderer reads `on_<event>` as a listener for `<event>`,
/// whose name is written with dashes.
pub proof fn lemma_event_attribute(event: Seq<char>)
    ensures
        is_event_name(attribute_name_seq(seq!['o', 'n', '_'] + event)),
        attribute_name_seq(seq!['o', 'n', '_'] + event).skip(3) == attribute_name_seq(event),
{
    let name = attribute_name_seq(seq!['o', 'n', '_'] + event);
    assert(name.take(3) =~= seq!['o', 'n', '-']);
    assert(name.skip(3) =~= attribute_name_seq(event));
}

/// An identifier whose HTML name does not start with `on-` is no event:
/// one shorter than three characters, or one not starting with `o`, `n`
/// and then `_` or `-`.
pub proof fn lemma_not_event_attribute(ident: Seq<char>)
    requires
        ident.len() < 3 || ident[0] != 'o' || ident[1] != 'n' || (ident[2] != '_' && ident[2]
            != '-'),
    ensures
        !is_event_name(attribute_name_seq(ident)),
{
    let name = attribute_name_seq(ident);
    if is_event_name(name) {
        assert(name.take(3)[0] == name[0]);
        assert(name.take(3)[1] == name[1]);
        assert(name.take(3)[2] == name[2]);
    }
}

/// A piece of static markup, with every expression already evaluated.
#[derive(Debug)]
pub enum Node {
    /// An HTML element: its tag, its attributes as (identifier, value)
    /// pairs in the order written, and its children.
    Element { tag: String, attributes: Vec<(String, String)>, children: Vec<Node> },
    /// A text value, written out escaped.
    Text(String),
    /// Markup written out as it stands: a pre-escaped value, or what a
    /// component rendered to.
    Markup(Markup),
}

/// One attribute as written inside a start tag: `name="escaped value"`.
pub open spec fn attribute_html(name: Seq<char>, value: Seq<char>) -> Seq<char> {
    attribute_name_seq(name) + seq!['=', '"'] + escape_seq(value) + seq!['"']
}

/// The attributes of a start tag, each preceded by a space.
pub open spec fn attributes_html(attributes: Seq<(String, String)>) -> Seq<char>
    decreases attributes.len(),
{
    if attributes.len() == 0 {
        Seq::empty()
    } else {
        attributes_html(attributes.drop_last()) + seq![' '] + attribute_html(
            attributes.last().0@,
            attributes.last().1@,
        )
    }
}

/// The attributes of a start tag are written in order, each as a space,
/// its dashed name, `="`, its escaped value and `"`.
pub proof fn lemma_attributes_html(
    before: Seq<(String, String)>,
    name: String,
    value: String,
    after: Seq<(String, String)>,
)
    ensures
        attributes_html(before + seq![(name, value)] + after) == attributes_html(before) + seq![' ']
            + attribute_name_seq(name@) + seq!['=', '"'] + escape_seq(value@) + seq!['"']
            + attributes_html(after),
    decreases after.len(),
{
    if after.len() == 0 {
        let all = before + seq![(name, value)] + after;
        assert(all.drop_last() =~= before);
        assert(attributes_html(after) =~= Seq::<char>::empty());
        assert(attributes_html(all) =~= attributes_html(before) + seq![' '] + attribute_name_seq(
            name@,
        ) + seq!['=', '"'] + escape_seq(value@) + seq!['"'] + attributes_html(after));
    } else {
        lemma_attributes_html(before, name, value, after.drop_last());
        let all = before + seq![(name, value)] + after;
        assert(all.drop_last() =~= before + seq![(name, value)] + after.drop_last());
        assert(all.last() == after.last());
    }
}

/// The start tag `<tag name="value" ...>`.
pub open spec fn start_tag_html(tag: Seq<char>, attributes: Seq<(String, String)>) -> Seq<char> {
    seq!['<'] + tag + attributes_html(attributes) + seq!['>']
}

/// The end tag `</tag>`.
pub open spec fn end_tag_html(tag: Seq<char>) -> Seq<char> {
    seq!['<', '/'] + tag + seq!['>']
}

/// The HTML that a node stands for.
pub open spec fn node_html(node: Node) -> Seq<char>
    decreases node,
{
    match node {
        Node::Element { tag, attributes, children } => start_tag_html(tag@, attributes@)
            + nodes_html(children@) + end_tag_html(tag@),
        Node::Text(text) => escape_seq(text@),
        Node::Markup(markup) => markup.0@,
    }
}

/// The HTML that a sequence of nodes stands for: theirs, in order.
pub open spec fn nodes_html(nodes: Seq<Node>) -> Seq<char>
    decreases nodes,
{
    if nodes.len() == 0 {
        Seq::empty()
    } else {
        nodes_html(nodes.drop_last()) + node_html(nodes.last())
    }
}

/// Rendering a concatenation of node sequences gives the concatenation of
/// their renderings.
pub proof fn lemma_nodes_html_concat(a: Seq<Node>, b: Seq<Node>)
    ensures
        nodes_html(a + b) == nodes_html(a) + nodes_html(b),
    decreases b.len(),
{
    if b.len() == 0 {
        assert(a + b =~= a);
        assert(nodes_html(a) + nodes_html(b) =~= nodes_html(a));
    } else {
        lemma_nodes_html_concat(a, b.drop_last());
        assert((a + b).drop_last() =~= a + b.drop_last());
        assert((a + b).last() == b.last());
        assert(nodes_html(a) + nodes_html(b) =~= nodes_html(a) + nodes_html(b.drop_last())
            + node_html(b.last()));
    }
}

/// Every element writes its start tag first and its end tag `</tag>` last,
/// with its children's HTML between them, whatever its attributes and
/// children: the end tag is never left out.
pub proof fn lemma_element_html(tag: String, attributes: Vec<(String, String)>, children: Vec<Node>)
    ensures
        ({
            let html = node_html(Node::Element { tag, attributes, children });
            let start = seq!['<'] + tag@ + attributes_html(attributes@) + seq!['>'];
            let end = seq!['<', '/'] + tag@ + seq!['>'];
            &&& html.len() == start.len() + nodes_html(children@).len() + end.len()
            &&& html.take(start.len() as int) == start
            &&& html.subrange(start.len() as int, html.len() - end.len()) == nodes_html(children@)
            &&& html.skip(html.len() - end.len()) == end
        }),
{
    let html = node_html(Node::Element { tag, attributes, children });
    let start = seq!['<'] + tag@ + attributes_html(attributes@) + seq!['>'];
    let end = seq!['<', '/'] + tag@ + seq!['>'];
    let mid = nodes_html(children@);
    assert(html == start + mid + end);
    assert(html.take(start.len() as int) =~= start);
    assert(html.subrange(start.len() as int, html.len() - end.len()) =~= mid);
    assert(html.skip(html.len() - end.len()) =~= end);
}

/// An element's end tag always closes it: the HTML of an element holds its
/// end tag `</tag>` as a suffix, so markup that follows the element in a
/// list comes after the end tag.
pub proof fn lemma_element_then_sibling(
    tag: String,
    attributes: Vec<(String, String)>,
    children: Vec<Node>,
    rest: Seq<Node>,
)
    ensures
        ({
            let first = Node::Element { tag, attributes, children };
            let html = nodes_html(seq![first] + rest);
            let end = seq!['<', '/'] + tag@ + seq!['>'];
            let k = node_html(first).len();
            &&& html.subrange(k - end.len(), k as int) == end
            &&& html.skip(k as int) == nodes_html(rest)
        }),
{
    let first = Node::Element { tag, attributes, children };
    lemma_element_html(tag, attributes, children);
    lemma_nodes_html_concat(seq![first], rest);
    let one = seq![first];
    assert(one.drop_last() =~= Seq::<Node>::empty());
    assert(nodes_html(Seq::<Node>::empty()) =~= Seq::<char>::empty());
    assert(nodes_html(one) =~= node_html(first));
    let html = nodes_html(seq![first] + rest);
    let k = node_html(first).len();
    let end = seq!['<', '/'] + tag@ + seq!['>'];
    assert(html.skip(k as int) =~= nodes_html(rest));
    assert(html.subrange(k - end.len(), k as int) =~= node_html(first).skip(k - end.len()));
}

/// A text node can never write markup: its HTML holds no `<`, `>` or `"`.
pub proof fn lemma_text_is_not_markup(text: String)
    ensures
        forall|i: int|
            0 <= i < node_html(Node::Text(text)).len() ==> {
                let c = #[trigger] node_html(Node::Text(text))[i];
                c != '<' && c != '>' && c != '"'
            },
{
    lemma_escape_no_markup(text@);
}

/// How the dynamic renderer treats an attribute.
#[derive(Debug, Clone, PartialEq, Eq)]
pub enum DynAttribute {
    /// `on_<event>: handler` listens for the named event.
    Event(String),
    /// Any other attribute is set under its HTML name.
    Attribute(String),
}

/// Whether an HTML attribute name starts with `on-`.
pub open spec fn is_event_name(name: Seq<char>) -> bool {
    name.len() >= 3 && name.take(3) == seq!['o', 'n', '-']
}

/// The dynamic renderer's reading of an attribute identifier: its HTML name
/// with `on-` removed for an event, else the HTML name itself.
pub fn dyn_attribute(ident: &str) -> (res: DynAttribute)
    ensures
        match res {
            DynAttribute::Event(event) => is_event_name(attribute_name_seq(ident@))
                && event@ == attribute_name_seq(ident@).skip(3),
            DynAttribute::Attribute(name) => !is_event_name(attribute_name_seq(ident@))
                && name@ == attribute_name_seq(ident@),
        },
{
    let raw = attribute_name(ident);
    let n = raw.as_str().unicode_len();
    if n >= 3 && raw.as_str().get_char(0) == 'o' && raw.as_str().get_char(1) == 'n'
        && raw.as_str().get_char(2) == '-' {
        let mut event = String::new();
        event.push_str(raw.as_str().substring_char(3, n));
        assert(raw@.take(3) =~= seq!['o', 'n', '-']);
        DynAttribute::Event(event)
    } else {
        proof {
            if is_event_name(raw@) {
                assert(raw@.take(3)[0] == 'o');
                assert(raw@.take(3)[1] == 'n');
                assert(raw@.take(3)[2] == '-');
            }
        }
        DynAttribute::Attribute(raw)
    }
}

/// Writes the attributes of a start tag, each preceded by a space.
fn push_attributes(attributes: &Vec<(String, String)>, out: &mut String)
    ensures
        final(out)@ == old(out)@ + attributes_html(attributes@),
{
    let ghost start = out@;
    let n = attributes.len();
    let mut k: usize = 0;
    while k < n
        invariant
            n == attributes@.len(),
            k <= n,
            out@ == start + attributes_html(attributes@.take(k as int)),
        decreases n - k,
    {
        let ghost before = out@;
        let (name, value) = &attributes[k];
        out.push(' ');
        out.push_str(attribute_name(name.as_str()).as_str());
        out.push_str("=\"");
        escape_to_string(value.as_str(), out);
        out.push('"');
        proof {
            reveal_strlit("=\"");
            assert(attributes@.take(k + 1).drop_last() =~= attributes@.take(k as int));
            assert(attributes@.take(k + 1).last() == attributes@[k as int]);
            assert(out@ =~= before + seq![' '] + attribute_html(name@, value@));
        }
        k = k + 1;
    }
    assert(attributes@.take(n as int) =~= attributes@);
}

/// Writes the HTML of one node.
fn push_node(node: &Node, out: &mut String)
    ensures
        final(out)@ == old(out)@ + node_html(*node),
    decreases node,
{
    match node {
        Node::Element { tag, attributes, children } => {
            let ghost start = out@;
            out.push('<');
            out.push_str(tag.as_str());
            push_attributes(attributes, out);
            out.push('>');
            push_nodes(children, out);
            out.push_str("</");
            out.push_str(tag.as_str());
            out.push('>');
            proof {
                reveal_strlit("</");
                assert(out@ =~= start + node_html(*node));
            }
        },
        Node::Text(text) => {
            escape_to_string(text.as_str(), out);
        },
        Node::Markup(markup) => {
            out.push_str(markup.0.as_str());
        },
    }
}

/// Writes the HTML of a sequence of nodes, in order.
fn push_nodes(nodes: &Vec<Node>, out: &mut String)
    ensures
        final(out)@ == old(out)@ + nodes_html(nodes@),
    decreases nodes,
{
    let ghost start = out@;
    let n = nodes.len();
    let mut k: usize = 0;
    while k < n
        invariant
            n == nodes@.len(),
            k <= n,
            out@ == start + nodes_html(nodes@.take(k as int)),
        decreases n - k,
    {
        assert(nodes@.take(k + 1).drop_last() =~= nodes@.take(k as int));
        push_node(&nodes[k], out);
        k = k + 1;
    }
    assert(nodes@.take(n as int) =~= nodes@);
}

/// Renders static markup: the HTML of the nodes, in order, as pre-escaped
/// markup. Elements are written as start tag, children and end tag; text is
/// escaped; markup is written as it stands.
pub fn render(nodes: &Vec<Node>) -> (res: Markup)
    ensures
        res.0@ == nodes_html(nodes@),
{
    let mut out = String::new();
    push_nodes(nodes, &mut out);
    PreEscaped(out)
}

/// The HTML of a dynamic component rendered on the server: a `div` holding
/// what the component rendered to, carrying the component's serialized data
/// in `data-component` when serializing succeeded.
pub open spec fn dynamic_component_html(serialized: Option<Seq<char>>, rendered: Seq<char>) -> Seq<
    char,
> {
    match serialized {
        Some(json) => seq!['<', 'd', 'i', 'v', ' '] + seq![
            'd',
            'a',
            't',
            'a',
            '-',
            'c',
            'o',
            'm',
            'p',
            'o',
            'n',
            'e',
            'n',
            't',
            '=',
            '"',
        ] + escape_seq(json) + seq!['"', '>'] + rendered + seq!['<', '/', 'd', 'i', 'v', '>'],
        None => seq!['<', 'd', 'i', 'v', '>'] + rendered + seq!['<', '/', 'd', 'i', 'v', '>'],
    }
}

/// The characters of an optional string.
pub open spec fn string_option_view(s: Option<String>) -> Option<Seq<char>> {
    match s {
        Some(t) => Some(t@),
        None => None,
    }
}

/// The data a dynamic component carries reads back exactly: in its HTML,
/// the `data-component` value starts after `<div data-component="`, runs
/// to the first `"`, and unescapes to the serialized data.
pub proof fn lemma_component_data_round_trip(json: Seq<char>, rendered: Seq<char>)
    ensures
        ({
            let html = dynamic_component_html(Some(json), rendered);
            let end = 21 + escape_seq(json).len() as int;
            &&& html.len() > end
            &&& html[end] == '"'
            &&& forall|i: int| 21 <= i < end ==> #[trigger] html[i] != '"'
            &&& unescape_seq(html.subrange(21, end)) == json
        }),
{
    let html = dynamic_component_html(Some(json), rendered);
    let e = escape_seq(json);
    let end = 21 + e.len() as int;
    lemma_escape_no_markup(json);
    lemma_unescape_escape(json);
    assert(html.subrange(21, end) =~= e);
    assert forall|i: int| 21 <= i < end implies #[trigger] html[i] != '"' by {
        assert(html[i] == e[i - 21]);
    }
    assert(html[end] == '"');
}

/// A dynamic component is wrapped in one `div`, with or without data: its
/// HTML starts with `<div`, ends with `</div>`, and the rendered markup
/// stands unchanged right before the end tag.
pub proof fn lemma_component_wrapper(serialized: Option<Seq<char>>, rendered: Seq<char>)
    ensures
        ({
            let html = dynamic_component_html(serialized, rendered);
            let end = seq!['<', '/', 'd', 'i', 'v', '>'];
            &&& html.len() >= 4 + rendered.len() + end.len()
            &&& html.take(4) == seq!['<', 'd', 'i', 'v']
            &&& html.skip(html.len() - end.len()) == end
            &&& html.subrange(html.len() - end.len() - rendered.len(), html.len() - end.len())
                == rendered
        }),
{
    let html = dynamic_component_html(serialized, rendered);
    let end = seq!['<', '/', 'd', 'i', 'v', '>'];
    assert(html.take(4) =~= seq!['<', 'd', 'i', 'v']);
    assert(html.skip(html.len() - end.len()) =~= end);
    assert(html.subrange(html.len() - end.len() - rendered.len(), html.len() - end.len())
        =~= rendered);
}

/// Renders a dynamic component for the server: `rendered` is what the
/// component rendered to, `serialized` its data, or `None` when serializing
/// it failed. The data lets the client rebuild the component.
pub fn render_dynamic_component(serialized: Option<String>, rendered: String) -> (res: Markup)
    ensures
        res.0@ == dynamic_component_html(string_option_view(serialized), rendered@),
{
    let ghost rendered_seq = rendered@;
    let ghost serialized_seq = string_option_view(serialized);
    let attributes: Vec<(String, String)> = match serialized {
        Some(json) => vec![("data_component".to_owned(), json)],
        None => Vec::new(),
    };
    let ghost attrs = attributes@;
    let children = vec![Node::Markup(PreEscaped(rendered))];
    let ghost kids = children@;
    proof {
        assert(kids.drop_last() =~= Seq::<Node>::empty());
        assert(nodes_html(Seq::<Node>::empty()) =~= Seq::<char>::empty());
        assert(node_html(kids.last()) == rendered_seq);
        assert(nodes_html(kids) =~= rendered_seq);
    }
    let div = Node::Element { tag: "div".to_owned(), attributes, children };
    let nodes = vec![div];
    let res = render(&nodes);
    proof {
        reveal_strlit("div");
        reveal_strlit("data_component");
        let d = nodes@[0];
        assert(nodes@.drop_last() =~= Seq::<Node>::empty());
        assert(nodes_html(Seq::<Node>::empty()) =~= Seq::<char>::empty());
        assert(nodes@.last() == d);
        assert(nodes_html(nodes@) =~= node_html(d));
        let div_seq = seq!['d', 'i', 'v'];
        assert("div"@ =~= div_seq);
        assert(node_html(d) == start_tag_html(div_seq, attrs) + nodes_html(kids) + end_tag_html(
            div_seq,
        ));
        assert(attributes_html(Seq::<(String, String)>::empty()) =~= Seq::<char>::empty());
        if attrs.len() == 1 {
            assert(attrs.drop_last() =~= Seq::<(String, String)>::empty());
            assert(attrs.last() == attrs[0]);
            assert(serialized_seq == Some(attrs[0].1@));
            assert(attribute_name_seq(attrs[0].0@) =~= seq![
                'd',
                'a',
                't',
                'a',
                '-',
                'c',
                'o',
                'm',
                'p',
                'o',
                'n',
                'e',
                'n',
                't',
            ]);
        } else {
            assert(attrs =~= Seq::<(String, String)>::empty());
            assert(serialized_seq is None);
        }
        assert(res.0@ =~= dynamic_component_html(serialized_seq, rendered_seq));
    }
    res
}

} // verus!
