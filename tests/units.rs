use css_extract::edits::{apply_edits, check_edits, Edit};
use css_extract::hash::hash8;
use css_extract::kebab::camel_to_kebab;
use css_extract::num::{add_num, div_num, mul_num, parse_decimal, Num};
use css_extract::position::byte_offset_to_line_col;
use css_extract::render::{render_num_exec, render_value_exec, StaticValue};

fn chars(s: &str) -> Vec<char> {
    s.chars().collect()
}

fn text(v: &[char]) -> String {
    v.iter().collect()
}

#[test]
fn hash_of_empty_text_is_offset_basis() {
    assert_eq!(hash8(""), "811c9dc5");
}

#[test]
fn hash_of_single_byte() {
    assert_eq!(hash8("a"), "e40c292c");
}

#[test]
fn hash_is_eight_lowercase_hex_digits_and_stable() {
    let a = hash8("input.js:10");
    let b = hash8("input.js:10");
    assert_eq!(a, b);
    assert_eq!(a.len(), 8);
    assert!(a.chars().all(|c| c.is_ascii_digit() || ('a'..='f').contains(&c)));
    assert_ne!(hash8("input.js:10"), hash8("input.js:11"));
    assert_ne!(hash8("input.js:10"), hash8("other.js:10"));
}

#[test]
fn kebab_rewrites_capitals() {
    assert_eq!(camel_to_kebab("fontSize"), "font-size");
    assert_eq!(camel_to_kebab("backgroundColor"), "background-color");
    assert_eq!(camel_to_kebab("WebkitTransition"), "-webkit-transition");
    assert_eq!(camel_to_kebab("color"), "color");
    assert_eq!(camel_to_kebab(""), "");
    assert_eq!(camel_to_kebab("\u{c9}"), "-\u{e9}");
    assert_eq!(camel_to_kebab("a\u{c9}b"), "a-\u{e9}b");
}

#[test]
fn kebab_is_idempotent_on_examples() {
    for s in ["zIndex", "lineHeight", "already-kebab", "ABC", "x"] {
        let once = camel_to_kebab(s);
        assert_eq!(camel_to_kebab(&once), once);
    }
}

#[test]
fn line_and_column_are_one_based() {
    assert_eq!(byte_offset_to_line_col("ab\ncd", 0), (1, 1));
    assert_eq!(byte_offset_to_line_col("ab\ncd", 4), (2, 2));
    assert_eq!(byte_offset_to_line_col("ab\ncd", 3), (2, 1));
}

#[test]
fn offset_past_the_end_is_clamped() {
    assert_eq!(byte_offset_to_line_col("ab\ncd", 100), (2, 3));
    assert_eq!(byte_offset_to_line_col("", 7), (1, 1));
}

#[test]
fn numbers_render_in_shortest_form() {
    assert_eq!(text(&render_num_exec(Num { mant: 12, scale: 0 })), "12");
    assert_eq!(text(&render_num_exec(Num { mant: 5, scale: 1 })), "0.5");
    assert_eq!(text(&render_num_exec(Num { mant: 1200, scale: 2 })), "12");
    assert_eq!(text(&render_num_exec(Num { mant: -125, scale: 2 })), "-1.25");
    assert_eq!(text(&render_num_exec(Num { mant: 0, scale: 3 })), "0");
    assert_eq!(text(&render_num_exec(Num { mant: 7, scale: 3 })), "0.007");
}

#[test]
fn unit_rule_adds_px_only_to_nonzero_unit_properties() {
    let twelve = StaticValue::Num(Num { mant: 12, scale: 0 });
    let zero = StaticValue::Num(Num { mant: 0, scale: 0 });
    let half = StaticValue::Num(Num { mant: 5, scale: 1 });
    assert_eq!(text(&render_value_exec(&twelve, &chars("font-size"))), "12px");
    assert_eq!(text(&render_value_exec(&half, &chars("margin"))), "0.5px");
    assert_eq!(text(&render_value_exec(&zero, &chars("margin"))), "0");
    assert_eq!(text(&render_value_exec(&zero, &chars("opacity"))), "0");
    assert_eq!(text(&render_value_exec(&half, &chars("opacity"))), "0.5");
    assert_eq!(text(&render_value_exec(&twelve, &chars("z-index"))), "12");
    assert_eq!(text(&render_value_exec(&twelve, &chars("counter-reset"))), "12");
    let s = StaticValue::Str(chars("red"));
    assert_eq!(text(&render_value_exec(&s, &chars("color"))), "red");
}

#[test]
fn decimal_arithmetic() {
    let a = Num { mant: 15, scale: 1 };
    let b = Num { mant: 2, scale: 0 };
    assert_eq!(add_num(a, b, false), Some(Num { mant: 35, scale: 1 }));
    assert_eq!(add_num(a, b, true), Some(Num { mant: -5, scale: 1 }));
    assert_eq!(mul_num(a, b), Some(Num { mant: 30, scale: 1 }));
    let q = div_num(Num { mant: 16, scale: 0 }, b).unwrap();
    assert_eq!(text(&render_num_exec(q)), "8");
    let third = div_num(Num { mant: 1, scale: 0 }, Num { mant: 3, scale: 0 }).unwrap();
    assert_eq!(text(&render_num_exec(third)), "0.333333333");
    assert_eq!(add_num(Num { mant: i64::MAX, scale: 0 }, b, false), None);
}

#[test]
fn edits_splice_in_order() {
    let src = b"const a = css({}); const b = 1;";
    let edits = vec![
        Edit { start: 10, end: 17, replacement: "\"cls_1\"".to_string() },
        Edit { start: 29, end: 30, replacement: "22".to_string() },
    ];
    assert!(check_edits(src.len(), &edits));
    let out = apply_edits(src, &edits);
    assert_eq!(String::from_utf8(out.clone()).unwrap(), "const a = \"cls_1\"; const b = 22;");
    let delta: i64 = edits
        .iter()
        .map(|e| e.replacement.len() as i64 - (e.end - e.start) as i64)
        .sum();
    assert_eq!(out.len() as i64, src.len() as i64 + delta);
}

#[test]
fn edits_out_of_order_are_refused() {
    let overlapping = vec![
        Edit { start: 2, end: 6, replacement: String::new() },
        Edit { start: 4, end: 8, replacement: String::new() },
    ];
    assert!(!check_edits(10, &overlapping));
    let outside = vec![Edit { start: 2, end: 12, replacement: String::new() }];
    assert!(!check_edits(10, &outside));
}

#[test]
fn decimal_text_is_read_exactly() {
    assert_eq!(parse_decimal("12"), Some(Num { mant: 12, scale: 0 }));
    assert_eq!(parse_decimal("0.5"), Some(Num { mant: 5, scale: 1 }));
    assert_eq!(parse_decimal("-1.25"), Some(Num { mant: -125, scale: 2 }));
    assert_eq!(parse_decimal("-9223372036854775808"), Some(Num { mant: i64::MIN, scale: 0 }));
    assert_eq!(parse_decimal("9223372036854775808"), None);
    assert_eq!(parse_decimal(""), None);
    assert_eq!(parse_decimal("-"), None);
    assert_eq!(parse_decimal(".5"), None);
    assert_eq!(parse_decimal("5."), None);
    assert_eq!(parse_decimal("1.2.3"), None);
    assert_eq!(parse_decimal("1e3"), None);
    assert_eq!(parse_decimal("0.0000000000000000001"), None);
}
