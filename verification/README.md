# east

The verified core of East, a full-stack web library for island
architecture, written in Verus.

- `src/markup.rs` — HTML escaping (`escape`, `escape_to_string`) and
  pre-escaped markup (`PreEscaped`, `Markup`), with the laws of escaping:
  it distributes over concatenation, leaves plain text alone, never writes
  `<`, `>` or `"`, and can be read back.
- `src/render.rs` — the `Render` and `RenderMulti` traits and the rendering
  of text and pre-escaped text.
- `src/node.rs` — the model of the markup DSL (`Element`, `Attribute`,
  `Child`, ...) and the choice between HTML elements and components.
- `src/html.rs` — the static renderer that the markup macros expand to
  (`render` over a `Node` tree), attribute naming, the dynamic renderer's
  reading of event attributes, and the markup of server-rendered dynamic
  components.
- `src/assets.rs` — content types and routes of build assets, and filling
  the page template.
- `app/` — what the verified library cannot hold: DSL parsing with `syn`,
  code generation with `quote`, the `sycamore` views, serde support and
  serving assets with `axum`.
