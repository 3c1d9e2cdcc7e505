//! Examples in doc comments, as tests.

use cplus_core::chars::{is_white_char, lines_of};
use cplus_core::text::decimal_text;
use cplus_core::doctest::{extract, format_doctest_display_name};

#[test]
fn no_doc_comments_returns_unchanged() {
    let src = "fn main() -> i32 { return 0; }\n";
    assert_eq!(extract(src), src);
}

#[test]
fn doc_comment_without_fence_is_ignored() {
    let src = "/// A regular doc comment with no fence.\nfn f() {}\n";
    assert_eq!(extract(src), src);
}

#[test]
fn single_fence_synthesizes_test_fn() {
    let src = "\
/// ```
/// assert 1 == 1;
/// ```
fn f() {}
";
    let out = extract(src);
    assert!(out.contains("#[test]"), "no #[test] in output: {out}");
    assert!(out.contains("fn __doctest_f_0()"), "no synth name: {out}");
    assert!(out.contains("assert 1 == 1;"), "no fence body: {out}");
}

#[test]
fn fence_strips_doc_prefix_and_one_space() {
    let src = "\
/// ```
/// let x: i32 = 5;
/// assert x == 5;
/// ```
fn f() {}
";
    let out = extract(src);
    assert!(out.contains("let x: i32 = 5;"));
    assert!(out.contains("assert x == 5;"));
    let synth_start = out.find("fn __doctest_f_0()").unwrap();
    let synth_region = &out[synth_start..];
    assert!(!synth_region.contains("///"), "doc prefix leaked into body: {synth_region}");
}

#[test]
fn multiple_fences_get_distinct_names() {
    let src = "\
/// ```
/// assert true;
/// ```
/// gap text
/// ```
/// assert false;
/// ```
fn f() {}
";
    let out = extract(src);
    assert!(out.contains("fn __doctest_f_0()"));
    assert!(out.contains("fn __doctest_f_1()"));
}

#[test]
fn doc_comment_attaches_to_following_item() {
    let src = "\
/// ```
/// assert true;
/// ```
fn pub_target() {}
";
    let out = extract(src);
    assert!(out.contains("fn __doctest_pub_target_0()"),
        "name should come from item past `pub`, got: {out}");
}

#[test]
fn doc_comment_with_attribute_in_between_resolves_to_item() {
    let src = "\
/// ```
/// assert true;
/// ```
#[test]
fn t() {}
";
    let out = extract(src);
    assert!(out.contains("fn __doctest_t_0()"),
        "name should skip attribute lines, got: {out}");
}

#[test]
fn unterminated_fence_is_dropped_silently() {
    let src = "\
/// ```
/// assert true;
fn f() {}
";
    let out = extract(src);
    assert!(!out.contains("__doctest_"),
        "unterminated fence should not synthesize: {out}");
}

#[test]
fn anonymous_block_at_eof_gets_fallback_name() {
    let src = "\
fn main() {}
/// ```
/// assert true;
/// ```
";
    let out = extract(src);
    assert!(out.contains("fn __doctest_anon_"),
        "expected anon fallback, got: {out}");
}

#[test]
fn format_display_name_single_file() {
    assert_eq!(
        format_doctest_display_name("__doctest_max_0"),
        Some("DOC_TEST::max::0".to_string())
    );
}

#[test]
fn format_display_name_qualified() {
    assert_eq!(
        format_doctest_display_name("src.util.__doctest_max_0"),
        Some("DOC_TEST::src::util::max::0".to_string())
    );
}

#[test]
fn format_display_name_rejects_non_doctest() {
    assert_eq!(format_doctest_display_name("foo"), None);
    assert_eq!(format_doctest_display_name("src.math.foo"), None);
}

#[test]
fn format_display_name_rejects_missing_index() {
    assert_eq!(format_doctest_display_name("__doctest_max"), None);
}

#[test]
fn format_display_name_rejects_non_numeric_index() {
    assert_eq!(format_doctest_display_name("__doctest_max_x"), None);
}

#[test]
fn no_doc_comment_at_eof_no_panic() {
    let src = "/// hello\n";
    let out = extract(src);
    assert_eq!(out, src);
}

#[test]
fn item_name_handles_struct() {
    let src = "\
/// ```
/// assert true;
/// ```
struct Point { x: i32, y: i32 }
";
    let out = extract(src);
    assert!(out.contains("fn __doctest_Point_0()"));
}

#[test]
fn each_block_becomes_a_test_behind_the_source() {
    let src = "/// Adds.\n/// ```\n/// assert add(1, 2) == 3;\n/// ```\n/// ```\n///  indented\n/// ```\npub struct X;\nfn add() {}";
    assert_eq!(
        extract(src),
        format!(
            "{src}\n\n#[test]\nfn __doctest_X_0() {{\nassert add(1, 2) == 3;\n}}\n\n#[test]\nfn __doctest_X_1() {{\n indented\n}}\n"
        )
    );
}

#[test]
fn the_source_is_kept() {
    for src in ["", "x", "/// ```\n/// a\n/// ```\nfn f() {}\n", "/// ```\n/// a\n/// ```"] {
        assert!(extract(src).starts_with(src));
    }
}

#[test]
fn names_of_tests_are_shown_by_item_and_index() {
    assert_eq!(format_doctest_display_name("__doctest_to_text_12"), Some("DOC_TEST::to_text::12".to_string()));
    assert_eq!(format_doctest_display_name("__doctest__7"), None);
    assert_eq!(format_doctest_display_name("__doctest_x_"), None);
}

#[test]
fn white_space_is_that_of_the_language_library() {
    for n in 0..=0x10ffffu32 {
        if let Some(c) = char::from_u32(n) {
            assert_eq!(is_white_char(c), c.is_whitespace(), "{n:x}");
        }
    }
}

#[test]
fn numbers_are_written_in_decimal() {
    for n in [0, 9, 10, 907, u64::MAX] {
        assert_eq!(decimal_text(n), n.to_string());
    }
}

#[test]
fn lines_are_split_as_the_language_library_splits_them() {
    for src in ["", "\n", "a", "a\n", "a\r\nb\r", "a\n\nb\n"] {
        let ours: Vec<String> = lines_of(&src.chars().collect()).iter().map(|l| l.iter().collect()).collect();
        let theirs: Vec<&str> = src.lines().collect();
        assert_eq!(ours, theirs, "{src:?}");
    }
}

#[test]
fn the_name_comes_from_the_item_whatever_stands_before_its_keyword() {
    for (item, name) in [
        ("pub fn f() {}", "f"),
        ("extern fn g();", "g"),
        ("pub extern fn h();", "h"),
        ("pub enum E { A }", "E"),
        ("pub impl P {", "P"),
        ("interface I {}", "I"),
        ("pub type T = i32;", "T"),
        ("static S: i32 = 0;", "S"),
        ("const C: i32 = 0;", "C"),
    ] {
        let src = format!("/// ```\n/// assert true;\n/// ```\n{item}\n");
        assert!(extract(&src).contains(&format!("fn __doctest_{name}_0()")), "{item}");
    }
}

#[test]
fn a_block_without_an_item_is_named_by_its_line() {
    let src = "fn f() {}\n/// ```\n/// assert true;\n/// ```\n";
    assert!(extract(src).contains("fn __doctest_anon_l2_0()"));
    let src = "/// ```\n/// assert true;\n/// ```\n}\n";
    assert!(extract(src).contains("fn __doctest_anon_l1_0()"));
}
