use vstd::prelude::*;

use crate::markup::{
    escape, escape_seq, lemma_escape_no_markup, lemma_unescape_escape, unescape_seq, Markup,
    PreEscaped,
};

verus! {

/// Render the current value into a static markup.
///
/// In the case of dynamic components implementing `Render`,
/// server-side rendering (SSR) will be used. The data will be stored
/// in the `data-component` attribute of the root `div`, so that the
/// struct can be built and re-rendered on the client.
pub trait Render<Component> {
    /// Whether the impl states what `render` gives, in `rendered`. An impl
    /// that does not says nothing of its result.
    open spec fn states_rendered() -> bool {
        false
    }

    /// The markup text that rendering this value gives, where the impl
    /// states it.
    open spec fn rendered(&self) -> Seq<char> {
        Seq::empty()
    }

    fn render(self) -> (res: Markup)
        ensures
            Self::states_rendered() ==> res.0@ == self.rendered(),
    ;
}

/// Render the current value, along with children, into a static
/// markup. This is the same as `Render` but with children.
pub trait RenderMulti<Component> {
    fn render_multi(self, children: Markup) -> Markup;
}

/// What `Render` gives for text: its HTML escaping.
pub fn render_text(text: &str) -> (res: Markup)
    ensures
        res.0@ == escape_seq(text@),
{
    PreEscaped(escape(text))
}

/// What `Render` gives for pre-escaped text: the same text, not escaped
/// again.
pub fn render_pre_escaped(markup: &str) -> (res: Markup)
    ensures
        res.0@ == markup@,
{
    let mut s = String::new();
    s.push_str(markup);
    PreEscaped(s)
}

impl<AnyComponent> Render<AnyComponent> for String {
    open spec fn states_rendered() -> bool {
        true
    }

    open spec fn rendered(&self) -> Seq<char> {
        escape_seq(self@)
    }

    fn render(self) -> Markup {
        render_text(self.as_str())
    }
}

impl<'a, AnyComponent> Render<AnyComponent> for &'a str {
    open spec fn states_rendered() -> bool {
        true
    }

    open spec fn rendered(&self) -> Seq<char> {
        escape_seq(self@)
    }

    fn render(self) -> Markup {
        render_text(self)
    }
}

impl<AnyComponent> Render<AnyComponent> for PreEscaped<String> {
    open spec fn states_rendered() -> bool {
        true
    }

    open spec fn rendered(&self) -> Seq<char> {
        self.0@
    }

    fn render(self) -> Markup {
        render_pre_escaped(self.0.as_str())
    }
}

impl<'a, AnyComponent> Render<AnyComponent> for PreEscaped<&'a str> {
    open spec fn states_rendered() -> bool {
        true
    }

    open spec fn rendered(&self) -> Seq<char> {
        self.0@
    }

    fn render(self) -> Markup {
        render_pre_escaped(self.0)
    }
}

impl<'a, AnyComponent> Render<AnyComponent> for PreEscaped<&'a String> {
    open spec fn states_rendered() -> bool {
        true
    }

    open spec fn rendered(&self) -> Seq<char> {
        self.0@
    }

    fn render(self) -> Markup {
        render_pre_escaped(self.0.as_str())
    }
}

impl<AnyComponent> Render<AnyComponent> for PreEscaped<Box<str>> {
    open spec fn states_rendered() -> bool {
        true
    }

    open spec fn rendered(&self) -> Seq<char> {
        (*self.0)@
    }

    fn render(self) -> Markup {
        render_pre_escaped(&*self.0)
    }
}

impl<AnyComponent> Render<AnyComponent> for PreEscaped<std::rc::Rc<str>> {
    open spec fn states_rendered() -> bool {
        true
    }

    open spec fn rendered(&self) -> Seq<char> {
        (*self.0)@
    }

    fn render(self) -> Markup {
        render_pre_escaped(&*self.0)
    }
}

impl<AnyComponent> Render<AnyComponent> for PreEscaped<std::sync::Arc<str>> {
    open spec fn states_rendered() -> bool {
        true
    }

    open spec fn rendered(&self) -> Seq<char> {
        (*self.0)@
    }

    fn render(self) -> Markup {
        render_pre_escaped(&*self.0)
    }
}

impl<'a, AnyComponent> Render<AnyComponent> for PreEscaped<std::borrow::Cow<'a, str>> {
    open spec fn states_rendered() -> bool {
        true
    }

    open spec fn rendered(&self) -> Seq<char> {
        self.0@
    }

    fn render(self) -> Markup {
        match &self.0 {
            std::borrow::Cow::Borrowed(borrowed) => render_pre_escaped(borrowed),
            std::borrow::Cow::Owned(owned) => render_pre_escaped(owned.as_str()),
        }
    }
}

/// Rendering a string gives its HTML escaping: markup that holds no `<`,
/// `>` or `"`, and that reads back as the string.
pub proof fn lemma_render_string<AnyComponent>(s: String)
    ensures
        <String as Render<AnyComponent>>::states_rendered(),
        <String as Render<AnyComponent>>::rendered(&s) == escape_seq(s@),
        unescape_seq(<String as Render<AnyComponent>>::rendered(&s)) == s@,
        forall|i: int|
            0 <= i < <String as Render<AnyComponent>>::rendered(&s).len() ==> {
                let c = #[trigger] <String as Render<AnyComponent>>::rendered(&s)[i];
                c != '<' && c != '>' && c != '"'
            },
{
    lemma_unescape_escape(s@);
    lemma_escape_no_markup(s@);
}

/// Rendering a string slice gives its HTML escaping: markup that holds no
/// `<`, `>` or `"`, and that reads back as the slice.
pub proof fn lemma_render_str<'a, AnyComponent>(s: &'a str)
    ensures
        <&'a str as Render<AnyComponent>>::states_rendered(),
        <&'a str as Render<AnyComponent>>::rendered(&s) == escape_seq(s@),
        unescape_seq(<&'a str as Render<AnyComponent>>::rendered(&s)) == s@,
        forall|i: int|
            0 <= i < <&'a str as Render<AnyComponent>>::rendered(&s).len() ==> {
                let c = #[trigger] <&'a str as Render<AnyComponent>>::rendered(&s)[i];
                c != '<' && c != '>' && c != '"'
            },
{
    lemma_unescape_escape(s@);
    lemma_escape_no_markup(s@);
}

/// Pre-escaped markup renders as it stands, character for character.
pub proof fn lemma_render_pre_escaped<'a, AnyComponent>(
    owned: String,
    slice: &'a str,
    borrowed: &'a String,
    cow: std::borrow::Cow<'a, str>,
)
    ensures
        <PreEscaped<String> as Render<AnyComponent>>::states_rendered(),
        <PreEscaped<String> as Render<AnyComponent>>::rendered(&PreEscaped(owned)) == owned@,
        <PreEscaped<&'a str> as Render<AnyComponent>>::states_rendered(),
        <PreEscaped<&'a str> as Render<AnyComponent>>::rendered(&PreEscaped(slice)) == slice@,
        <PreEscaped<&'a String> as Render<AnyComponent>>::states_rendered(),
        <PreEscaped<&'a String> as Render<AnyComponent>>::rendered(&PreEscaped(borrowed))
            == borrowed@,
        <PreEscaped<std::borrow::Cow<'a, str>> as Render<AnyComponent>>::states_rendered(),
        <PreEscaped<std::borrow::Cow<'a, str>> as Render<AnyComponent>>::rendered(
            &PreEscaped(cow),
        ) == cow@,
{
}

/// Representing a renderer without any dynamic component.
///
/// It has no values: its one variant holds an `Infallible`, which has
/// none.
pub enum NoComponent {
    Never(core::convert::Infallible),
}

} // verus!
