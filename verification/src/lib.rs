//! East is an opinioned Rust full-stack web library for island
//! architecture.
//!
//! This crate holds its verified core: HTML escaping and pre-escaped
//! markup, the render traits, the model of the markup DSL, the assembly of
//! rendered HTML, and the handling of build assets.

pub mod assets;
pub mod html;
pub mod markup;
pub mod node;
pub mod render;

pub use crate::assets::{asset_route, asset_type, AssetType};
pub use crate::html::{
    attribute_name, dyn_attribute, render, render_dynamic_component, DynAttribute, Node,
};
pub use crate::markup::{escape, escape_to_string, Markup, PreEscaped};
pub use crate::node::{
    is_html_tag, plan_child, Attribute, AttributeOrChild, Child, ChildPlan, Children, Element,
    PathSegment, TagPath, HTML_TAGS,
};
pub use crate::render::{render_pre_escaped, render_text, NoComponent, Render, RenderMulti};
