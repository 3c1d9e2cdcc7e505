//! Documentation pages.

use cplus_core::docgen::{anchor, extract, render_markdown, DocItem, ItemKind};

#[test]
fn no_docs_returns_empty() {
    assert!(extract("fn main() -> i32 { return 0; }").is_empty());
}

#[test]
fn ignores_non_pub_items() {
    let src = "\
/// Internal helper.
fn private_helper() -> i32 { return 0; }

/// Exported.
pub fn public_thing() -> i32 { return 1; }
";
    let items = extract(src);
    assert_eq!(items.len(), 1);
    assert_eq!(items[0].name, "public_thing");
}

#[test]
fn extracts_pub_fn_with_signature_and_body() {
    let src = "\
/// Returns the sum.
///
/// # Example
///
/// ```
/// assert add(1, 2) == 3;
/// ```
pub fn add(a: i32, b: i32) -> i32 {
    return a +% b;
}
";
    let items = extract(src);
    assert_eq!(items.len(), 1);
    let it = &items[0];
    assert_eq!(it.kind, ItemKind::Fn);
    assert_eq!(it.name, "add");
    assert!(it.signature.contains("pub fn add(a: i32, b: i32) -> i32"));
    assert!(it.doc.contains("Returns the sum."));
    assert!(it.doc.contains("```"));
}

#[test]
fn extracts_pub_struct_and_enum_and_type() {
    let src = "\
/// A point in 2D space.
pub struct Point { pub x: i32, pub y: i32 }

/// RGB color.
pub enum Color { Red, Green, Blue }

/// Byte count alias.
pub type Bytes = usize;
";
    let items = extract(src);
    let kinds: Vec<ItemKind> = items.iter().map(|i| i.kind).collect();
    assert_eq!(kinds, vec![ItemKind::Struct, ItemKind::Enum, ItemKind::TypeAlias]);
}

#[test]
fn impl_block_methods_get_qualified_names() {
    let src = "\
pub struct Point { x: i32 }

impl Point {
    /// Construct a new point.
    pub fn new(x: i32) -> Point { return Point { x: x }; }

    /// Read the x coordinate.
    pub fn x(this) -> i32 { return this.x; }
}
";
    let items = extract(src);
    let names: Vec<&str> = items.iter().map(|i| i.name.as_str()).collect();
    assert!(names.contains(&"Point::new"));
    assert!(names.contains(&"Point::x"));
}

#[test]
fn impl_interface_for_target_uses_implementing_type_name() {
    let src = "\
pub interface Display { fn show(this) -> i32 }

impl Counter: Display {
    /// Show the counter's value.
    pub fn show(this) -> i32 { return this.value; }
}
";
    let items = extract(src);
    let show = items.iter().find(|i| i.name.ends_with("show")).expect("show method");
    assert_eq!(show.name, "Counter::show");
}

#[test]
fn markdown_render_includes_toc_and_sections() {
    let src = "\
/// The first.
pub fn alpha() -> i32 { return 1; }

/// The second.
pub fn beta() -> i32 { return 2; }
";
    let items = extract(src);
    let md = render_markdown("util.cplus", &items);
    assert!(md.starts_with("# `util.cplus`"));
    assert!(md.contains("## Contents"));
    assert!(md.contains("- [`fn` alpha](#alpha)"));
    assert!(md.contains("## `fn alpha`"));
    assert!(md.contains("The first."));
}

#[test]
fn empty_input_renders_with_no_items_note() {
    let md = render_markdown("empty.cplus", &[]);
    assert!(md.contains("_No documented `pub` items._"));
}

#[test]
fn anchor_slug_is_url_safe() {
    assert_eq!(anchor("Point::new"), "point-new");
    assert_eq!(anchor("Vec[T, A]"), "vec-t-a");
    assert_eq!(anchor("simple"), "simple");
}

#[test]
fn skips_attributes_between_doc_block_and_item() {
    let src = "\
/// Tagged with an attribute.
#[inline]
pub fn tagged() -> i32 { return 0; }
";
    let items = extract(src);
    assert_eq!(items.len(), 1);
    assert_eq!(items[0].name, "tagged");
}

#[test]
fn a_page_has_contents_and_sections() {
    let items = extract("/// One.\npub fn add(a: i32,\n    b: i32) -> i32 {\n}\n");
    assert_eq!(items.len(), 1);
    assert_eq!(items[0].line, 2);
    assert_eq!(items[0].signature, "pub fn add(a: i32,\n    b: i32) -> i32");
    assert_eq!(items[0].doc, "One.\n");
    assert_eq!(
        render_markdown("u", &items),
        "# `u`\n\n## Contents\n\n- [`fn` add](#add)\n\n## `fn add` <a id=\"add\"></a>\n\nDefined at line 2.\n\n```\npub fn add(a: i32,\n    b: i32) -> i32\n```\n\nOne.\n\n"
    );
}

#[test]
fn items_come_in_the_order_of_the_source_and_stand_on_their_lines() {
    let src = "/// A.\npub struct A;\n\n/// B.\nimpl A {\n    /// C.\n    pub fn c(this) {}\n}\n/// D.\npub interface D {}\n/// E.\npub extern fn e();\n";
    let items: Vec<(ItemKind, String, usize)> = extract(src).into_iter().map(|i| (i.kind, i.name, i.line)).collect();
    assert_eq!(
        items,
        vec![
            (ItemKind::Struct, "A".to_string(), 2),
            (ItemKind::Impl, "A".to_string(), 5),
            (ItemKind::Fn, "A::c".to_string(), 7),
            (ItemKind::Interface, "D".to_string(), 10),
            (ItemKind::Fn, "e".to_string(), 12),
        ]
    );
}

#[test]
fn anchors_have_no_dash_at_their_ends() {
    assert_eq!(anchor("--A  b__"), "a-b");
    assert_eq!(anchor("::"), "");
}

#[test]
fn an_item_without_text_has_an_empty_part() {
    let it = DocItem { kind: ItemKind::TypeAlias, name: "T".to_string(), signature: "pub type T = i32 ".to_string(), doc: String::new(), line: 3 };
    assert!(render_markdown("x", &[it]).ends_with("Defined at line 3.\n\n```\npub type T = i32\n```\n\n"));
}

#[test]
fn an_impl_is_shown_only_if_its_type_is_public() {
    assert!(extract("struct P { x: i32 }\n/// Impl docs.\nimpl P {\n}\n").is_empty());
    assert!(extract("/// Impl docs.\npub impl P {\n}\n").is_empty());
    for decl in ["pub struct P;", "pub enum P { A }", "pub type P = i32;"] {
        let before = extract(&format!("{decl}\n/// Impl docs.\nimpl P {{\n}}\n"));
        assert_eq!(before.len(), 1, "{decl}");
        assert_eq!(before[0].kind, ItemKind::Impl);
        assert_eq!(before[0].name, "P");
        let after = extract(&format!("/// Impl docs.\nimpl P[T]: I {{\n}}\n{decl}\n"));
        assert_eq!(after.len(), 1, "{decl}");
    }
    assert!(extract("pub struct Q;\n/// Impl docs.\nimpl P {\n}\n").is_empty());
}

#[test]
fn sections_go_kind_by_kind() {
    let item = |kind: ItemKind, name: &str, line: usize| DocItem {
        kind,
        name: name.to_string(),
        signature: String::new(),
        doc: String::new(),
        line,
    };
    let items = [
        item(ItemKind::Struct, "S", 1),
        item(ItemKind::Fn, "a", 2),
        item(ItemKind::TypeAlias, "T", 3),
        item(ItemKind::Fn, "b", 4),
        item(ItemKind::Struct, "R", 5),
    ];
    let md = render_markdown("u.cplus", &items);
    let at = |text: &str| md.find(text).unwrap_or_else(|| panic!("{text} in {md}"));
    let sections = ["## `fn a`", "## `fn b`", "## `struct S`", "## `struct R`", "## `type T`"];
    let contents = ["- [`fn` a]", "- [`fn` b]", "- [`struct` S]", "- [`struct` R]", "- [`type` T]"];
    for w in sections.windows(2) {
        assert!(at(w[0]) < at(w[1]));
    }
    for w in contents.windows(2) {
        assert!(at(w[0]) < at(w[1]));
    }
    assert_eq!(md.matches("Defined at line").count(), 5);
}
