use std::borrow::Cow;
use east::{escape, escape_to_string, render_pre_escaped, render_text, Markup, NoComponent, PreEscaped, Render};

#[test]
fn escape_replaces_the_four_special_characters() {
    assert_eq!(
        escape("<a href=\"x\">Tom & Jerry</a>"),
        "&lt;a href=&quot;x&quot;&gt;Tom &amp; Jerry&lt;/a&gt;"
    );
}

#[test]
fn escape_leaves_plain_text_alone() {
    assert_eq!(escape("plain text, 'quotes' and ünïcödé ✓"), "plain text, 'quotes' and ünïcödé ✓");
    assert_eq!(escape(""), "");
}

#[test]
fn escape_to_string_appends() {
    let mut out = String::from("prefix:");
    escape_to_string("a<b", &mut out);
    assert_eq!(out, "prefix:a&lt;b");
    escape_to_string("&", &mut out);
    assert_eq!(out, "prefix:a&lt;b&amp;");
}

#[test]
fn escape_of_concatenation_is_concatenation_of_escapes() {
    let a = "x<y";
    let b = "\"&z";
    assert_eq!(escape(&format!("{}{}", a, b)), format!("{}{}", escape(a), escape(b)));
}

#[test]
fn escape_output_has_no_markup_characters() {
    let e = escape("<script>alert(\"x\")</script> & more >");
    assert!(!e.contains('<'));
    assert!(!e.contains('>'));
    assert!(!e.contains('"'));
}

#[test]
fn escape_is_injective_on_entities() {
    // An already escaped entity is escaped again, so it stays apart from
    // the character it stands for.
    assert_ne!(escape("&lt;"), escape("<"));
    assert_eq!(escape("&lt;"), "&amp;lt;");
    assert_eq!(escape("&quot;"), "&amp;quot;");
}

#[test]
fn render_of_strings_escapes() {
    let m: Markup = Render::<NoComponent>::render(String::from("1 < 2"));
    assert_eq!(m.0, "1 &lt; 2");
    let m: Markup = Render::<NoComponent>::render("a > b");
    assert_eq!(m.0, "a &gt; b");
    assert_eq!(render_text("\"q\"").0, "&quot;q&quot;");
}

#[test]
fn render_of_pre_escaped_does_not_escape_again() {
    let m: Markup = Render::<NoComponent>::render(PreEscaped(String::from("<b>&amp;</b>")));
    assert_eq!(m.0, "<b>&amp;</b>");
    let m: Markup = Render::<NoComponent>::render(PreEscaped("<i>x</i>"));
    assert_eq!(m.0, "<i>x</i>");
    assert_eq!(render_pre_escaped("&lt;").0, "&lt;");
}

#[test]
fn pre_escaped_default_is_empty() {
    let m: Markup = Default::default();
    assert_eq!(m, PreEscaped(String::new()));
}

#[test]
fn render_of_other_pre_escaped_strings() {
    let owned = String::from("<em>&amp;</em>");
    let m: Markup = Render::<NoComponent>::render(PreEscaped(&owned));
    assert_eq!(m.0, "<em>&amp;</em>");
    let boxed: Box<str> = "<b>x</b>".into();
    let m: Markup = Render::<NoComponent>::render(PreEscaped(boxed));
    assert_eq!(m.0, "<b>x</b>");
    let rc: std::rc::Rc<str> = "<i>y</i>".into();
    let m: Markup = Render::<NoComponent>::render(PreEscaped(rc));
    assert_eq!(m.0, "<i>y</i>");
    let arc: std::sync::Arc<str> = "<u>z</u>".into();
    let m: Markup = Render::<NoComponent>::render(PreEscaped(arc));
    assert_eq!(m.0, "<u>z</u>");
}

#[test]
fn render_of_pre_escaped_cow() {
    let borrowed: Cow<str> = Cow::Borrowed("<p>&lt;</p>");
    let m: Markup = Render::<NoComponent>::render(PreEscaped(borrowed));
    assert_eq!(m.0, "<p>&lt;</p>");
    let owned: Cow<str> = Cow::Owned(String::from("<br>"));
    let m: Markup = Render::<NoComponent>::render(PreEscaped(owned));
    assert_eq!(m.0, "<br>");
}
