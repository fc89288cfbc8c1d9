use std::collections::HashMap;

use sv_fmt::config::{load_config, FormatConfig};
use sv_fmt::formatter::analysis::apply_alignment;
use sv_fmt::formatter::engine::{FormatError, Formatter};
use sv_fmt::formatter::format_text;
use sv_fmt::formatter::lexer::{classify_token, Token, TokenKind};
use sv_fmt::formatter::wrapping::{wrap_formatted_output, wrap_line};
use sv_fmt::report::{
    caret_marker, ensure_trailing_newline, is_sv_file, line_length_violations, line_preview, normalize_newlines,
    strip_bom,
};

fn chars(s: &str) -> Vec<char> {
    s.chars().collect()
}

fn text(v: &[char]) -> String {
    v.iter().collect()
}

#[test]
fn zero_indent_width_is_coerced_to_two() {
    let mut cfg = FormatConfig::default();
    cfg.indent_width = 0;
    cfg.use_tabs = true;
    let loaded = load_config(Some(cfg));
    assert_eq!(loaded.indent_width, 2);
    assert!(loaded.use_tabs);
}

#[test]
fn defaults_apply_without_a_config_file() {
    let loaded = load_config(None);
    assert_eq!(loaded, FormatConfig::default());
    assert_eq!(loaded.indent_width, 2);
    assert_eq!(loaded.max_line_length, 100);
    assert!(!loaded.auto_wrap_long_lines);
}

#[test]
fn empty_input_gives_a_single_line_break() {
    let formatted = format_text("", &FormatConfig::default()).unwrap();
    assert_eq!(formatted, "\n");
}

#[test]
fn single_statement_body_stays_unwrapped() {
    let input = "module x;
initial begin
if (cond)
  a <= 1;
end
endmodule
";
    let formatted = format_text(input, &FormatConfig::default()).unwrap();
    let expected = "\
module x;
  initial begin
    if (cond)
    a <= 1;
  end
endmodule
";
    assert_eq!(formatted, expected);
}

#[test]
fn end_else_stays_on_two_lines_when_disabled() {
    let input = "module x;
initial begin
if (a) begin
  do_something();
end
else begin
  other();
end
end
endmodule
";
    let mut cfg = FormatConfig::default();
    cfg.inline_end_else = false;
    let formatted = format_text(input, &cfg).unwrap();
    assert!(!formatted.contains("end else"), "got:\n{formatted}");
    assert!(formatted.contains("    end\n    else begin"), "got:\n{formatted}");
}

fn token(text: &str, kind: TokenKind, offset: usize) -> Token {
    Token::new_spanned(chars(text), kind, offset, text.len())
}

#[test]
fn directives_stay_flush_left_inside_nesting() {
    let tokens = vec![
        token("module", TokenKind::Keyword, 0),
        token("x", TokenKind::Identifier, 7),
        token(";", TokenKind::Symbol, 8),
        token("\n", TokenKind::Newline, 9),
        token("begin", TokenKind::Keyword, 10),
        token("\n", TokenKind::Newline, 15),
        token("`define A 1", TokenKind::Directive, 16),
        token("\n", TokenKind::Newline, 27),
        token("a", TokenKind::Identifier, 28),
        token("`ifdef B", TokenKind::Directive, 30),
        token("\n", TokenKind::Newline, 38),
        token("end", TokenKind::Keyword, 39),
        token("\n", TokenKind::Newline, 42),
        token("endmodule", TokenKind::Keyword, 43),
    ];
    let mut formatter = Formatter::new(FormatConfig::default(), tokens, HashMap::new(), HashMap::new());
    let out = text(&formatter.format());
    assert_eq!(out, "module x;\n  begin\n`define A 1\n    a\n`ifdef B\n  end\nendmodule\n");
}

#[test]
fn tabs_indent_one_tab_per_level() {
    let input = "module x;
initial begin
a = 1;
end
endmodule
";
    let mut cfg = FormatConfig::default();
    cfg.use_tabs = true;
    let formatted = format_text(input, &cfg).unwrap();
    assert_eq!(formatted, "module x;\n\tinitial begin\n\t\ta = 1;\n\tend\nendmodule\n");
}

#[test]
fn indent_width_four_doubles_the_indentation() {
    let input = "module x;
initial begin
a = 1;
end
endmodule
";
    let mut cfg = FormatConfig::default();
    cfg.indent_width = 4;
    let formatted = format_text(input, &cfg).unwrap();
    assert_eq!(formatted, "module x;\n    initial begin\n        a = 1;\n    end\nendmodule\n");
}

#[test]
fn formatting_twice_changes_nothing() {
    let input = "module top;
initial begin
if (cond)
  a <= 1;
  b <= 2;
foo (a,b ,c);
end
endmodule
";
    let cfg = FormatConfig::default();
    let once = format_text(input, &cfg).unwrap();
    let twice = format_text(&once, &cfg).unwrap();
    assert_eq!(once, twice);
}

#[test]
fn same_input_gives_same_output() {
    let input = "module x;\ncase(sel)\n  0: a = 1;\n  10: a = 2;\nendcase\nendmodule\n";
    let cfg = FormatConfig::default();
    assert_eq!(format_text(input, &cfg).unwrap(), format_text(input, &cfg).unwrap());
}

#[test]
fn block_comment_has_one_blank_line_each_side() {
    let input = "module x;
assign a = 1;


/* note */


assign b = 2;
endmodule
";
    let formatted = format_text(input, &FormatConfig::default()).unwrap();
    assert!(formatted.contains("assign a = 1;\n\n  /* note */\n\n  assign b = 2;"), "got:\n{formatted}");
}

#[test]
fn rejected_input_is_a_parse_error() {
    let result = format_text("module x;\n`undefined_macro_here\nendmodule\n", &FormatConfig::default());
    assert!(matches!(result, Err(FormatError::Parse(_))));
}

#[test]
fn wrap_line_splits_after_a_comma_with_extra_indent() {
    let mut cfg = FormatConfig::default();
    cfg.max_line_length = 20;
    let line = chars("  assign data = {foo, bar, baz, quux};");
    let pieces: Vec<String> = wrap_line(&line, &cfg).iter().map(|p| text(p)).collect();
    assert_eq!(pieces, vec!["  assign data = {foo,", "     bar, baz, quux};", "    "]);
}

#[test]
fn wrap_line_keeps_short_lines() {
    let mut cfg = FormatConfig::default();
    cfg.max_line_length = 20;
    let line = chars("  a = b;");
    let pieces: Vec<String> = wrap_line(&line, &cfg).iter().map(|p| text(p)).collect();
    assert_eq!(pieces, vec!["  a = b;"]);
}

#[test]
fn wrap_line_never_splits_comments_or_directives() {
    let mut cfg = FormatConfig::default();
    cfg.max_line_length = 10;
    for line in [
        "  // a long comment, with commas, that exceeds",
        "  /* a long block comment, with commas */",
        "   * continuation, of a block comment",
        "`define LONG_MACRO a, b, c, d, e",
    ] {
        let pieces: Vec<String> = wrap_line(&chars(line), &cfg).iter().map(|p| text(p)).collect();
        assert_eq!(pieces, vec![line.to_string()]);
    }
}

#[test]
fn wrap_line_without_break_point_keeps_the_line() {
    let mut cfg = FormatConfig::default();
    cfg.max_line_length = 5;
    let line = chars("    abcdefghij");
    let pieces: Vec<String> = wrap_line(&line, &cfg).iter().map(|p| text(p)).collect();
    assert_eq!(pieces, vec!["    abcdefghij"]);
}

#[test]
fn wrap_output_keeps_line_breaks_and_zero_disables() {
    let mut cfg = FormatConfig::default();
    cfg.max_line_length = 0;
    let input = chars("a, b, c, d, e, f, g\n\nx\n");
    assert_eq!(text(&wrap_formatted_output(input.clone(), &cfg)), "a, b, c, d, e, f, g\n\nx\n");
    cfg.max_line_length = 8;
    assert_eq!(text(&wrap_formatted_output(input, &cfg)), "a, b, c,\n  d, e,\n  f, g\n\nx\n");
}

#[test]
fn long_comment_lines_survive_auto_wrap() {
    let input = "module x;
// a comment line that is much longer than the limit, with commas, here
assign data = {foo, bar, baz, quux};
endmodule
";
    let mut cfg = FormatConfig::default();
    cfg.auto_wrap_long_lines = true;
    cfg.max_line_length = 20;
    let formatted = format_text(input, &cfg).unwrap();
    assert!(
        formatted.contains("  // a comment line that is much longer than the limit, with commas, here\n"),
        "got:\n{formatted}"
    );
    assert!(formatted.contains("  assign data = {foo,\n     bar, baz, quux};\n"), "got:\n{formatted}");
}

#[test]
fn alignment_pads_each_colon_to_one_column() {
    let mut table = HashMap::new();
    apply_alignment(&vec![(10, 3), (30, 7), (50, 1)], &mut table);
    assert_eq!(table.get(&10), Some(&5));
    assert_eq!(table.get(&30), Some(&1));
    assert_eq!(table.get(&50), Some(&7));
    assert_eq!(table.len(), 3);
}

#[test]
fn alignment_skips_single_branch_blocks() {
    let mut table = HashMap::new();
    apply_alignment(&vec![(10, 3)], &mut table);
    assert!(table.is_empty());
}

#[test]
fn single_branch_case_keeps_one_space_before_colon() {
    let input = "module x;
always_comb begin
case(sel)
  0: foo = 0;
endcase
end
endmodule
";
    let formatted = format_text(input, &FormatConfig::default()).unwrap();
    assert!(formatted.contains("      0 : foo = 0;"), "got:\n{formatted}");
}

#[test]
fn classification_of_leaves() {
    assert_eq!(classify_token(&chars("Module")), TokenKind::Keyword);
    assert_eq!(classify_token(&chars("$display")), TokenKind::Identifier);
    assert_eq!(classify_token(&chars("4'b1010")), TokenKind::Number);
    assert_eq!(classify_token(&chars("\"hi\"")), TokenKind::StringLiteral);
    assert_eq!(classify_token(&chars(";")), TokenKind::Symbol);
    assert_eq!(classify_token(&chars("<=")), TokenKind::Other);
    assert_eq!(classify_token(&chars("\"")), TokenKind::Other);
}

#[test]
fn newlines_are_normalized() {
    assert_eq!(text(&normalize_newlines(&chars("a\r\nb\rc\n\r\n"))), "a\nb\nc\n\n");
}

#[test]
fn byte_order_mark_is_dropped() {
    assert_eq!(text(&strip_bom(&chars("\u{feff}module"))), "module");
    assert_eq!(text(&strip_bom(&chars("module"))), "module");
}

#[test]
fn trailing_newline_is_added_once() {
    assert_eq!(text(&ensure_trailing_newline(&chars("a"))), "a\n");
    assert_eq!(text(&ensure_trailing_newline(&chars("a\n"))), "a\n");
    assert_eq!(text(&ensure_trailing_newline(&chars(""))), "\n");
}

#[test]
fn source_extensions_are_recognised() {
    assert!(is_sv_file(&chars("sv")));
    assert!(is_sv_file(&chars("SVH")));
    assert!(is_sv_file(&chars("v")));
    assert!(is_sv_file(&chars("vh")));
    assert!(!is_sv_file(&chars("vhd")));
    assert!(!is_sv_file(&chars("")));
}

#[test]
fn long_lines_are_reported_with_preview_and_caret() {
    let report = line_length_violations(&chars("short\nmodule wide; assign parametric_bus_value = foo; endmodule\r\nok\n"), 20);
    assert_eq!(report.len(), 1);
    assert_eq!(report[0].line, 2);
    assert_eq!(report[0].columns, 57);
    assert_eq!(text(&report[0].preview), "module wide; assign parametric_bus_value...");
    assert!(line_length_violations(&chars("a very long line indeed"), 0).is_empty());
    assert_eq!(text(&line_preview(&chars("abc"), 20)), "abc");
    assert_eq!(text(&caret_marker(&chars("a\tbcdef"), 3)), "    |  \t ^ column 4");
    assert_eq!(text(&caret_marker(&chars("ab"), 10)), "    |   ^ column 11");
}
