use east::{asset_route, asset_type, AssetType, PreEscaped};
use east::assets::{fill_template, replace_all};

#[test]
fn asset_types_by_extension() {
    assert_eq!(asset_type(Some("html")), Some(AssetType::Html));
    assert_eq!(asset_type(Some("css")), Some(AssetType::Css));
    assert_eq!(asset_type(Some("js")), Some(AssetType::JavaScript));
    assert_eq!(asset_type(Some("wasm")), Some(AssetType::Wasm));
    assert_eq!(asset_type(Some("png")), None);
    assert_eq!(asset_type(Some("HTML")), None);
    assert_eq!(asset_type(None), None);
}

#[test]
fn asset_routes() {
    assert_eq!(asset_route("index.html"), None);
    assert_eq!(asset_route("app.js"), Some("/app.js".to_string()));
    assert_eq!(asset_route("sub/index.html"), Some("/sub/index.html".to_string()));
}

#[test]
fn replace_all_like_std() {
    for (s, from, to) in [
        ("aaa", "aa", "b"),
        ("abcabc", "bc", "X"),
        ("none here", "zz", "y"),
        ("ab", "", "x"),
        ("", "", "x"),
        ("", "a", "x"),
        ("héllo héllo", "é", "e"),
    ] {
        assert_eq!(replace_all(s, from, to), s.replace(from, to));
    }
    assert_eq!(replace_all("aaa", "aa", "b"), "ba");
}

#[test]
fn fill_template_replaces_markers() {
    let page = fill_template(
        "<head><!-- header --></head><body><!-- body --></body>",
        "<!-- header -->",
        &PreEscaped("<title>T</title>".to_string()),
        "<!-- body -->",
        &PreEscaped("<p>B</p>".to_string()),
    );
    assert_eq!(page, "<head><title>T</title></head><body><p>B</p></body>");
}
