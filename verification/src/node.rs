use vstd::prelude::*;

verus! {

/// The tag names that the markup DSL writes out as HTML elements; any other
/// tag names a component.
pub const HTML_TAGS: [&'static str; 78] = [
    "a", "abbr", "acronym", "address", "area",
    "b", "base", "bdo", "big", "blockquote", "body", "br", "button",
    "caption", "cite", "code", "col", "colgroup",
    "dd", "del", "dfn", "div", "dl", "DOCTYPE", "dt",
    "em",
    "fieldset", "form",
    "h1", "h2", "h3", "h4", "h5", "h6", "head", "html", "hr",
    "i", "img", "input", "ins",
    "kbd",
    "label", "legend", "li", "link",
    "map", "meta",
    "noscript",
    "object", "ol", "optgroup", "option",
    "p", "param", "pre",
    "q",
    "samp", "script", "select", "small", "span", "strong", "style", "sub", "sup",
    "table", "tbody", "td", "textarea", "tfoot", "th", "thead", "title", "tr", "tt",
    "ul",
    "var",
];

/// The HTML tag names, as character sequences.
pub open spec fn html_tag_names() -> Seq<Seq<char>> {
    HTML_TAGS@.map_values(|t: &str| t@)
}

/// Character-wise equality of two strings.
pub fn str_equal(a: &str, b: &str) -> (res: bool)
    ensures
        res == (a@ == b@),
{
    let n = a.unicode_len();
    if n != b.unicode_len() {
        return false;
    }
    let mut i: usize = 0;
    while i < n
        invariant
            n == a@.len(),
            n == b@.len(),
            i <= n,
            forall|j: int| 0 <= j < i ==> a@[j] == b@[j],
        decreases n - i,
    {
        if a.get_char(i) != b.get_char(i) {
            return false;
        }
        i = i + 1;
    }
    assert(a@ =~= b@);
    true
}

/// Whether `name` is one of the HTML tag names.
pub fn is_html_tag(name: &str) -> (res: bool)
    ensures
        res == html_tag_names().contains(name@),
{
    let mut i: usize = 0;
    while i < 78
        invariant
            i <= 78,
            forall|j: int| 0 <= j < i ==> HTML_TAGS@[j]@ != name@,
        decreases 78 - i,
    {
        if str_equal(HTML_TAGS[i], name) {
            assert(html_tag_names()[i as int] == name@);
            return true;
        }
        i = i + 1;
    }
    assert forall|j: int| 0 <= j < html_tag_names().len() implies html_tag_names()[j] != name@ by {
        assert(html_tag_names()[j] == HTML_TAGS@[j]@);
    }
    false
}

/// One segment of a tag path: its identifier, and whether generic
/// arguments follow it.
#[derive(Debug, Clone)]
pub struct PathSegment {
    pub ident: String,
    pub has_arguments: bool,
}

/// The path that names an element's tag, such as `div` or
/// `components::Counter`.
#[derive(Debug, Clone)]
pub struct TagPath {
    pub leading_colon: bool,
    pub segments: Vec<PathSegment>,
}

impl TagPath {
    /// The identifier the path consists of, when it is a single identifier.
    pub open spec fn ident_spec(&self) -> Option<Seq<char>> {
        if !self.leading_colon && self.segments@.len() == 1 && !self.segments@[0].has_arguments {
            Some(self.segments@[0].ident@)
        } else {
            None
        }
    }

    /// If this path consists of a single identifier (no leading `::`, one
    /// segment, no arguments), returns it.
    pub fn get_ident(&self) -> (res: Option<&String>)
        ensures
            res matches Some(id) ==> self.ident_spec() == Some(id@),
            res is None ==> self.ident_spec() is None,
    {
        if !self.leading_colon && self.segments.len() == 1 && !self.segments[0].has_arguments {
            Some(&self.segments[0].ident)
        } else {
            None
        }
    }
}

/// An attribute of an element: `name: value`.
#[derive(Debug, Clone)]
pub struct Attribute<E> {
    pub name: String,
    pub value: E,
}

/// An element: a tag followed by braces holding attributes and children.
#[derive(Debug)]
pub struct Element<E> {
    pub tag: TagPath,
    pub attributes_or_children: Vec<AttributeOrChild<E>>,
}

/// One comma-separated entry between an element's braces.
#[derive(Debug)]
pub enum AttributeOrChild<E> {
    Attribute(Attribute<E>),
    Child(Child<E>),
}

/// A child: a nested element, or an expression to render.
#[derive(Debug)]
pub enum Child<E> {
    Element(Element<E>),
    Expr(E),
}

/// The attributes among the entries, in order.
pub open spec fn attributes_of<E>(items: Seq<AttributeOrChild<E>>) -> Seq<Attribute<E>>
    decreases items.len(),
{
    if items.len() == 0 {
        Seq::empty()
    } else {
        let rest = attributes_of(items.drop_last());
        match items.last() {
            AttributeOrChild::Attribute(a) => rest.push(a),
            AttributeOrChild::Child(_) => rest,
        }
    }
}

/// The children among the entries, in order.
pub open spec fn children_of<E>(items: Seq<AttributeOrChild<E>>) -> Seq<Child<E>>
    decreases items.len(),
{
    if items.len() == 0 {
        Seq::empty()
    } else {
        let rest = children_of(items.drop_last());
        match items.last() {
            AttributeOrChild::Attribute(_) => rest,
            AttributeOrChild::Child(c) => rest.push(c),
        }
    }
}

impl<E> Element<E> {
    /// The HTML tag this element writes out: its tag when that is a single
    /// identifier naming an HTML tag, else `None` (a component).
    pub open spec fn html_tag_spec(&self) -> Option<Seq<char>> {
        match self.tag.ident_spec() {
            Some(id) => if html_tag_names().contains(id) {
                Some(id)
            } else {
                None
            },
            None => None,
        }
    }

    /// The HTML tag of this element, or `None` when it names a component.
    pub fn html_tag(&self) -> (res: Option<String>)
        ensures
            res matches Some(t) ==> self.html_tag_spec() == Some(t@),
            res is None ==> self.html_tag_spec() is None,
    {
        match self.tag.get_ident() {
            Some(ident) => {
                if is_html_tag(ident.as_str()) {
                    Some(ident.clone())
                } else {
                    None
                }
            },
            None => None,
        }
    }

    /// The attributes of this element, in the order they were written.
    pub fn attributes(&self) -> (res: Vec<&Attribute<E>>)
        ensures
            res@.len() == attributes_of(self.attributes_or_children@).len(),
            forall|i: int|
                0 <= i < res@.len() ==> *res@[i] == attributes_of(self.attributes_or_children@)[i],
    {
        let mut attributes: Vec<&Attribute<E>> = Vec::new();
        let n = self.attributes_or_children.len();
        let mut k: usize = 0;
        while k < n
            invariant
                n == self.attributes_or_children@.len(),
                k <= n,
                attributes@.len() == attributes_of(self.attributes_or_children@.take(k as int)).len(),
                forall|i: int|
                    0 <= i < attributes@.len() ==> *attributes@[i] == attributes_of(
                        self.attributes_or_children@.take(k as int),
                    )[i],
            decreases n - k,
        {
            let ghost items = self.attributes_or_children@;
            assert(items.take(k + 1).drop_last() =~= items.take(k as int));
            if let AttributeOrChild::Attribute(attribute) = &self.attributes_or_children[k] {
                attributes.push(attribute);
            }
            k = k + 1;
        }
        assert(self.attributes_or_children@.take(n as int) =~= self.attributes_or_children@);
        attributes
    }

    /// The children of this element, in the order they were written.
    pub fn children(&self) -> (res: Vec<&Child<E>>)
        ensures
            res@.len() == children_of(self.attributes_or_children@).len(),
            forall|i: int|
                0 <= i < res@.len() ==> *res@[i] == children_of(self.attributes_or_children@)[i],
    {
        let mut children: Vec<&Child<E>> = Vec::new();
        let n = self.attributes_or_children.len();
        let mut k: usize = 0;
        while k < n
            invariant
                n == self.attributes_or_children@.len(),
                k <= n,
                children@.len() == children_of(self.attributes_or_children@.take(k as int)).len(),
                forall|i: int|
                    0 <= i < children@.len() ==> *children@[i] == children_of(
                        self.attributes_or_children@.take(k as int),
                    )[i],
            decreases n - k,
        {
            let ghost items = self.attributes_or_children@;
            assert(items.take(k + 1).drop_last() =~= items.take(k as int));
            if let AttributeOrChild::Child(child) = &self.attributes_or_children[k] {
                children.push(child);
            }
            k = k + 1;
        }
        assert(self.attributes_or_children@.take(n as int) =~= self.attributes_or_children@);
        children
    }
}

/// How the markup macros write out one child.
pub enum ChildPlan<'a, E> {
    /// An HTML element: its tag, then its attributes and children in order.
    Html { tag: String, attributes: Vec<&'a Attribute<E>>, children: Vec<&'a Child<E>> },
    /// A component written without children: the element's tag names a type
    /// built from the attributes and rendered through `Render`.
    Component { element: &'a Element<E>, attributes: Vec<&'a Attribute<E>> },
    /// A component written with children: built from the attributes and
    /// rendered through `RenderMulti`, given the markup of the children.
    ComponentWithChildren {
        element: &'a Element<E>,
        attributes: Vec<&'a Attribute<E>>,
        children: Vec<&'a Child<E>>,
    },
    /// An expression, rendered through `Render`.
    Expr(&'a E),
}

/// An element is written as HTML exactly when its tag is a single
/// identifier that is one of the `HTML_TAGS`, and then under that
/// identifier; every other element is a component.
pub proof fn lemma_html_tag_exact<E>(element: Element<E>)
    ensures
        forall|id: Seq<char>|
            element.html_tag_spec() == Some(id) <==> (element.tag.ident_spec() == Some(id) && exists|
                i: int,
            |
                0 <= i < 78 && #[trigger] HTML_TAGS@[i]@ == id),
        element.html_tag_spec() is None <==> match element.tag.ident_spec() {
            Some(id) => forall|i: int| 0 <= i < 78 ==> #[trigger] HTML_TAGS@[i]@ != id,
            None => true,
        },
{
    assert forall|id: Seq<char>|
        html_tag_names().contains(id) <==> exists|i: int|
            0 <= i < 78 && #[trigger] HTML_TAGS@[i]@ == id by {
        lemma_html_tag_names(id);
    }
}

/// A name is an HTML tag name exactly when it is one of the `HTML_TAGS`,
/// which is what `is_html_tag` accepts.
pub proof fn lemma_html_tag_names(name: Seq<char>)
    ensures
        html_tag_names().contains(name) <==> exists|i: int|
            0 <= i < 78 && #[trigger] HTML_TAGS@[i]@ == name,
{
    if html_tag_names().contains(name) {
        let k = choose|k: int| 0 <= k < html_tag_names().len() && html_tag_names()[k] == name;
        assert(HTML_TAGS@[k]@ == name);
    }
    if exists|i: int| 0 <= i < 78 && #[trigger] HTML_TAGS@[i]@ == name {
        let i = choose|i: int| 0 <= i < 78 && #[trigger] HTML_TAGS@[i]@ == name;
        assert(html_tag_names()[i] == name);
    }
}

/// Whether `refs` holds exactly the items of `items`, in order.
pub open spec fn same_items<T>(refs: Seq<&T>, items: Seq<T>) -> bool {
    refs.len() == items.len() && forall|i: int| 0 <= i < refs.len() ==> *refs[i] == items[i]
}

/// How the markup macros write out `child`: an element with an HTML tag as
/// HTML; any other element as a component, through `RenderMulti` when it
/// has children and `Render` when it has none; an expression through
/// `Render`.
pub fn plan_child<'a, E>(child: &'a Child<E>) -> (res: ChildPlan<'a, E>)
    ensures
        match *child {
            Child::Expr(e) => res == ChildPlan::Expr(&e),
            Child::Element(el) => match res {
                ChildPlan::Html { tag, attributes, children } => el.html_tag_spec() == Some(tag@)
                    && same_items(attributes@, attributes_of(el.attributes_or_children@))
                    && same_items(children@, children_of(el.attributes_or_children@)),
                ChildPlan::Component { element, attributes } => el.html_tag_spec() is None
                    && *element == el && children_of(el.attributes_or_children@).len() == 0
                    && same_items(attributes@, attributes_of(el.attributes_or_children@)),
                ChildPlan::ComponentWithChildren { element, attributes, children } =>
                    el.html_tag_spec() is None && *element == el
                    && children_of(el.attributes_or_children@).len() > 0
                    && same_items(attributes@, attributes_of(el.attributes_or_children@))
                    && same_items(children@, children_of(el.attributes_or_children@)),
                ChildPlan::Expr(_) => false,
            },
        },
{
    match child {
        Child::Element(element) => {
            let attributes = element.attributes();
            let children = element.children();
            match element.html_tag() {
                Some(tag) => ChildPlan::Html { tag, attributes, children },
                None => {
                    if children.len() == 0 {
                        ChildPlan::Component { element, attributes }
                    } else {
                        ChildPlan::ComponentWithChildren { element, attributes, children }
                    }
                },
            }
        },
        Child::Expr(expr) => ChildPlan::Expr(expr),
    }
}

/// Which entries are attributes (`true`) and which are children (`false`).
pub open spec fn entry_kinds<E>(items: Seq<AttributeOrChild<E>>) -> Seq<bool> {
    items.map_values(|item: AttributeOrChild<E>| item is Attribute)
}

/// Merges attributes and children back by entry kinds: each `true` takes
/// the next attribute, each `false` the next child, in order.
pub open spec fn merge_entries<E>(
    kinds: Seq<bool>,
    attributes: Seq<Attribute<E>>,
    children: Seq<Child<E>>,
) -> Seq<AttributeOrChild<E>>
    decreases kinds.len(),
{
    if kinds.len() == 0 {
        Seq::empty()
    } else if kinds.last() {
        merge_entries(kinds.drop_last(), attributes.drop_last(), children).push(
            AttributeOrChild::Attribute(attributes.last()),
        )
    } else {
        merge_entries(kinds.drop_last(), attributes, children.drop_last()).push(
            AttributeOrChild::Child(children.last()),
        )
    }
}

/// An element's entries split into its attributes and its children: every
/// entry is exactly one of the two, so the counts add up, and merging the
/// two back by the entries' positions gives the entries again, in order.
pub proof fn lemma_attributes_children_partition<E>(items: Seq<AttributeOrChild<E>>)
    ensures
        attributes_of(items).len() + children_of(items).len() == items.len(),
        merge_entries(entry_kinds(items), attributes_of(items), children_of(items)) == items,
    decreases items.len(),
{
    if items.len() > 0 {
        let init = items.drop_last();
        lemma_attributes_children_partition(init);
        assert(entry_kinds(items).drop_last() =~= entry_kinds(init));
        match items.last() {
            AttributeOrChild::Attribute(_) => {
                assert(attributes_of(items).drop_last() =~= attributes_of(init));
                assert(children_of(items) == children_of(init));
            },
            AttributeOrChild::Child(_) => {
                assert(children_of(items).drop_last() =~= children_of(init));
                assert(attributes_of(items) == attributes_of(init));
            },
        }
        assert(merge_entries(entry_kinds(items), attributes_of(items), children_of(items))
            =~= init.push(items.last()));
        assert(init.push(items.last()) =~= items);
    } else {
        assert(merge_entries(entry_kinds(items), attributes_of(items), children_of(items))
            =~= items);
    }
}

/// The comma-separated children at the top of a markup.
#[derive(Debug)]
pub struct Children<E>(pub Vec<Child<E>>);

} // verus!
