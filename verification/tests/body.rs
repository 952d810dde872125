use standardoc_core::body::{
    collapse_blank_lines_in_body, compact_body_indent, count_leading_noise_lines,
    slice_symbol_body, BodyOptions,
};
use standardoc_core::comments::strip_inline_comments_in_body;

#[test]
fn count_leading_noise_lines_returns_zero_when_first_line_is_code() {
    let lines = vec!["pub fn foo() {", "    do_thing();", "}"];
    assert_eq!(count_leading_noise_lines(&lines), 0);
}

#[test]
fn count_leading_noise_lines_strips_doc_comments() {
    let lines = vec![
        "/// This is the doc.",
        "/// Second doc line.",
        "pub fn foo() {",
    ];
    assert_eq!(count_leading_noise_lines(&lines), 2);
}

#[test]
fn count_leading_noise_lines_strips_simple_attribute() {
    let lines = vec!["#[inline]", "pub fn foo() {"];
    assert_eq!(count_leading_noise_lines(&lines), 1);
}

#[test]
fn count_leading_noise_lines_strips_multi_line_attribute_via_paren_depth() {
    let lines = vec![
        "#[tool(",
        "    description = \"long\"",
        ")]",
        "async fn handler() {",
    ];
    assert_eq!(count_leading_noise_lines(&lines), 3);
}

#[test]
fn count_leading_noise_lines_strips_doc_then_attr_then_blank() {
    let lines = vec!["/// A function.", "#[allow(dead_code)]", "", "fn f() {"];
    assert_eq!(count_leading_noise_lines(&lines), 3);
}

#[test]
fn count_leading_noise_lines_strips_block_comment_spanning_lines() {
    let lines = vec!["/*", " * Multi-line block.", " */", "fn f() {"];
    assert_eq!(count_leading_noise_lines(&lines), 3);
}

#[test]
fn count_leading_noise_lines_handles_indented_attributes() {
    let lines = vec!["    /// indented doc", "    #[inline]", "    fn inner() {"];
    assert_eq!(count_leading_noise_lines(&lines), 2);
}

#[test]
fn count_leading_noise_lines_stops_at_first_non_noise_line() {
    let lines = vec![
        "/// doc",
        "fn first() {",
        "/// doc on inner",
        "fn nested() {",
    ];
    assert_eq!(count_leading_noise_lines(&lines), 1);
}

#[test]
fn compact_body_indent_dedents_common_4_space_prefix_and_converts_to_tabs() {
    let lines = vec!["    fn foo(&self) -> u32 {", "        self.x + 1", "    }"];
    let out = compact_body_indent(&lines);
    assert_eq!(out.dedented_prefix_len, 4);
    assert_eq!(out.indent_unit, "\t");
    assert_eq!(out.body, "fn foo(&self) -> u32 {\n\tself.x + 1\n}");
}

#[test]
fn compact_body_indent_dedents_8_space_then_tab_compacts_residual() {
    let lines = vec![
        "        fn deep() {",
        "            inner();",
        "                more();",
        "        }",
    ];
    let out = compact_body_indent(&lines);
    assert_eq!(out.dedented_prefix_len, 8);
    assert_eq!(out.indent_unit, "\t");
    assert_eq!(out.body, "fn deep() {\n\tinner();\n\t\tmore();\n}");
}

#[test]
fn compact_body_indent_preserves_tab_source_verbatim() {
    let lines = vec!["fn foo() {", "\tinner();", "\t\tnested();", "}"];
    let out = compact_body_indent(&lines);
    assert_eq!(out.dedented_prefix_len, 0);
    assert_eq!(out.indent_unit, "\t");
    assert_eq!(out.body, "fn foo() {\n\tinner();\n\t\tnested();\n}");
}

#[test]
fn compact_body_indent_converts_2_space_indent_to_tabs() {
    let lines = vec![
        "export function foo() {",
        "  if (x) {",
        "    bar();",
        "  }",
        "}",
    ];
    let out = compact_body_indent(&lines);
    assert_eq!(out.dedented_prefix_len, 0);
    assert_eq!(out.indent_unit, "\t");
    assert_eq!(
        out.body,
        "export function foo() {\n\tif (x) {\n\t\tbar();\n\t}\n}"
    );
}

#[test]
fn compact_body_indent_blank_lines_do_not_break_dedent() {
    let lines = vec!["    fn foo() {", "", "        let x = 1;", "    }"];
    let out = compact_body_indent(&lines);
    assert_eq!(out.dedented_prefix_len, 4);
    assert_eq!(out.indent_unit, "\t");
    assert_eq!(out.body, "fn foo() {\n\n\tlet x = 1;\n}");
}

#[test]
fn compact_body_indent_skips_conversion_on_mixed_indent() {
    let lines = vec!["fn foo() {", "\tinner();", "   weird();", "}"];
    let out = compact_body_indent(&lines);
    assert_eq!(out.dedented_prefix_len, 0);
    assert_eq!(out.indent_unit, "");
    assert_eq!(out.body, "fn foo() {\n\tinner();\n   weird();\n}");
}

#[test]
fn compact_body_indent_empty_input_returns_empty() {
    let lines: Vec<&str> = vec![];
    let out = compact_body_indent(&lines);
    assert_eq!(out.dedented_prefix_len, 0);
    assert_eq!(out.indent_unit, "");
    assert_eq!(out.body, "");
}

#[test]
fn compact_body_indent_single_line_no_indent_no_op() {
    let lines = vec!["fn foo() {}"];
    let out = compact_body_indent(&lines);
    assert_eq!(out.dedented_prefix_len, 0);
    assert_eq!(out.indent_unit, "");
    assert_eq!(out.body, "fn foo() {}");
}

#[test]
fn strip_inline_comments_rust_line() {
    let input = "let x = 1; // trailing comment\n";
    assert_eq!(strip_inline_comments_in_body(input), "let x = 1; \n");
}

#[test]
fn strip_inline_comments_rust_block_inline() {
    let input = "fn foo(/* x */) {}";
    assert_eq!(strip_inline_comments_in_body(input), "fn foo() {}");
}

#[test]
fn strip_inline_comments_block_preserves_newlines() {
    let input = "fn foo() {\n    /* this is\n       a block */\n    x\n}";
    assert_eq!(
        strip_inline_comments_in_body(input),
        "fn foo() {\n    \n\n    x\n}"
    );
}

#[test]
fn strip_inline_comments_skips_inside_double_quoted_string() {
    let input = "let s = \"// not a comment\"; // real one\n";
    assert_eq!(
        strip_inline_comments_in_body(input),
        "let s = \"// not a comment\"; \n"
    );
}

#[test]
fn strip_inline_comments_skips_inside_raw_string() {
    let input = "let s = r#\"// not a comment\"#; // real one\n";
    assert_eq!(
        strip_inline_comments_in_body(input),
        "let s = r#\"// not a comment\"#; \n"
    );
}

#[test]
fn strip_inline_comments_skips_inside_ts_template_literal() {
    let input = "const url = `https://example.com`; // tail\n";
    assert_eq!(
        strip_inline_comments_in_body(input),
        "const url = `https://example.com`; \n"
    );
}

#[test]
fn strip_inline_comments_handles_consecutive_line_comments() {
    let input = "// one\n// two\nlet x = 1;\n";
    assert_eq!(strip_inline_comments_in_body(input), "\n\nlet x = 1;\n");
}

#[test]
fn strip_inline_comments_line_comment_at_end_of_body_is_dropped() {
    assert_eq!(strip_inline_comments_in_body("fn f() { // tail"), "fn f() { ");
}

#[test]
fn strip_inline_comments_nested_block_comment() {
    assert_eq!(
        strip_inline_comments_in_body("a /* x /* y */ z */ b"),
        "a  b"
    );
}

#[test]
fn strip_inline_comments_escaped_quote_inside_string() {
    let input = "let s = \"a\\\"// b\"; // c";
    assert_eq!(strip_inline_comments_in_body(input), "let s = \"a\\\"// b\"; ");
}

#[test]
fn strip_inline_comments_keeps_line_count() {
    let input = "a // x\n/* 1\n2\n3 */ b\n\"//\"\n";
    let out = strip_inline_comments_in_body(input);
    assert_eq!(out.matches('\n').count(), input.matches('\n').count());
    assert_eq!(out, "a \n\n\n b\n\"//\"\n");
}

#[test]
fn strip_inline_comments_without_slash_is_identity() {
    let input = "let s = r##\"x\"##; `t` \"q\"\n";
    assert_eq!(strip_inline_comments_in_body(input), input);
}

#[test]
fn collapse_blank_lines_collapses_runs() {
    assert_eq!(collapse_blank_lines_in_body("a\n\n\n\nb\n \n\t\nc"), "a\n\nb\n \nc");
}

#[test]
fn collapse_blank_lines_is_idempotent() {
    let once = collapse_blank_lines_in_body("x\n\n\n  \ny\n\n");
    assert_eq!(once, "x\n\ny\n");
    assert_eq!(collapse_blank_lines_in_body(&once), once);
}

#[test]
fn collapse_blank_lines_keeps_single_blank() {
    assert_eq!(collapse_blank_lines_in_body("a\n\nb"), "a\n\nb");
    assert_eq!(collapse_blank_lines_in_body(""), "");
}

fn file_lines() -> Vec<&'static str> {
    vec![
        "impl Foo {",
        "    /// Doc.",
        "    #[inline]",
        "    pub fn bar(&self) -> u32 { // entry",
        "        self.x",
        "",
        "",
        "    }",
        "}",
    ]
}

#[test]
fn slice_symbol_body_verbatim_window() {
    let lines = file_lines();
    let opts = BodyOptions::default();
    let out = slice_symbol_body("crate::Foo::bar".into(), "src/lib.rs".into(), 2, 8, &lines, &opts);
    assert_eq!(out.total_body_lines, 7);
    assert_eq!(out.stripped_lines, 0);
    assert!(!out.truncated);
    assert!(!out.signature_only);
    assert_eq!(out.dedented_prefix_len, 4);
    assert_eq!(out.indent_unit, "\t");
    assert_eq!(
        out.body,
        "/// Doc.\n#[inline]\npub fn bar(&self) -> u32 { // entry\n\tself.x\n\n\n}"
    );
}

#[test]
fn slice_symbol_body_all_options() {
    let lines = file_lines();
    let opts = BodyOptions {
        max_lines: Some(4),
        strip_attrs: true,
        signature_only: false,
        strip_inline_comments: true,
        collapse_blank_lines: true,
    };
    let out = slice_symbol_body("f".into(), "g".into(), 2, 8, &lines, &opts);
    assert_eq!(out.stripped_lines, 2);
    assert!(out.truncated);
    assert_eq!(out.body, "pub fn bar(&self) -> u32 { \n\tself.x\n");
}

#[test]
fn slice_symbol_body_signature_only() {
    let lines = file_lines();
    let opts = BodyOptions {
        strip_attrs: true,
        signature_only: true,
        ..BodyOptions::default()
    };
    let out = slice_symbol_body("f".into(), "g".into(), 2, 8, &lines, &opts);
    assert!(out.signature_only);
    assert_eq!(out.body, "pub fn bar(&self) -> u32 { // entry");
}

#[test]
fn slice_symbol_body_empty_window() {
    let lines = file_lines();
    let out = slice_symbol_body("f".into(), "g".into(), 20, 30, &lines, &BodyOptions::default());
    assert_eq!(out.body, "");
    assert_eq!(out.total_body_lines, 0);
    assert_eq!(out.start_line, 20);
    assert_eq!(out.end_line, 30);
}
