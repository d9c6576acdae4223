use ssp::classify::{classify_line, classify_lowered, classify_text, comment_style, count_lines, CommentStyle};
use ssp::report::{format_analysis, format_top_analysis};
use ssp::stats::{analyze_file, analyze_keyed, code_density_tenths, code_lines, CodeStats, ExtCount};
use ssp::text::{chars_of, decimal_string};

#[test]
fn three_blank_two_comment_five_code() {
    let content = "\n# one\nx = 1\n\ny = 2\n# two\nz = 3\n   \nw = 4\nv = 5\n";
    let mut stats = CodeStats::new();
    analyze_file("sample.py", content, content.len() as u64, &mut stats);
    assert_eq!(stats.total_lines, 10);
    assert_eq!(stats.blank_lines, 3);
    assert_eq!(stats.comment_lines, 2);
    assert_eq!(code_lines(&stats), 5);
    assert_eq!(code_density_tenths(&stats), 500);
    assert!(format_analysis(&stats).contains("Code Density: 50.0%\n"));
}

#[test]
fn density_is_zero_without_lines() {
    let stats = CodeStats::new();
    assert_eq!(code_density_tenths(&stats), 0);
    assert_eq!(code_lines(&stats), 0);
    assert!(format_analysis(&stats).ends_with("Code Density: 0.0%\n"));
}

#[test]
fn density_rounds_to_tenths() {
    let mut stats = CodeStats::new();
    stats.total_lines = 3;
    stats.blank_lines = 2;
    assert_eq!(code_density_tenths(&stats), 333);
    stats.total_lines = 3;
    stats.blank_lines = 0;
    stats.comment_lines = 1;
    assert_eq!(code_density_tenths(&stats), 667);
}

#[test]
fn density_stays_within_bounds() {
    let mut stats = CodeStats::new();
    stats.total_lines = 7;
    assert_eq!(code_density_tenths(&stats), 1000);
    stats.blank_lines = 5;
    stats.comment_lines = 5;
    assert_eq!(code_lines(&stats), 0);
    assert_eq!(code_density_tenths(&stats), 0);
}

#[test]
fn lines_are_counted_like_str_lines() {
    for text in ["", "a", "a\n", "a\nb", "\n\n", "a\r\nb\r\n", "x\n\ny"] {
        assert_eq!(count_lines(text), text.lines().count(), "{:?}", text);
    }
}

#[test]
fn comment_style_follows_extension() {
    assert_eq!(comment_style(&chars_of("rs")), CommentStyle::Brace);
    assert_eq!(comment_style(&chars_of("py")), CommentStyle::Script);
    assert_eq!(comment_style(&chars_of("html")), CommentStyle::Markup);
    assert_eq!(comment_style(&chars_of("unknown")), CommentStyle::Mixed);
}

#[test]
fn comment_markers_depend_on_style() {
    let hash = chars_of("# note");
    assert!(classify_line(&hash, CommentStyle::Script).comment);
    assert!(!classify_line(&hash, CommentStyle::Brace).comment);
    assert!(classify_line(&hash, CommentStyle::Mixed).comment);
    let html = chars_of("<!-- x -->");
    assert!(classify_line(&html, CommentStyle::Markup).comment);
    assert!(!classify_line(&html, CommentStyle::Mixed).comment);
}

#[test]
fn heuristics_are_independent_of_comments() {
    let k = classify_line(&chars_of("// fn helper(x) -> bool {"), CommentStyle::Brace);
    assert!(k.comment);
    assert!(k.bool_like);
    assert!(k.function_like);
    assert!(!k.int_like);
    let k = classify_line(&chars_of("let n: usize = 3;"), CommentStyle::Brace);
    assert!(k.int_like);
    assert!(!k.comment);
}

#[test]
fn declaration_markers_ignore_case() {
    let k = classify_line(&chars_of("DOUBLE ratio;"), CommentStyle::Brace);
    assert!(k.float_like);
    let k = classify_line(&chars_of("String name;"), CommentStyle::Brace);
    assert!(k.string_like);
}

#[test]
fn control_flow_is_not_a_function() {
    let k = classify_line(&chars_of("if (a) {"), CommentStyle::Brace);
    assert!(!k.function_like);
    let k = classify_line(&chars_of("main() {"), CommentStyle::Brace);
    assert!(k.function_like);
    let k = classify_line(&chars_of("class Foo:"), CommentStyle::Script);
    assert!(k.class_like);
}

#[test]
fn blank_lines_count_for_nothing_else() {
    let k = classify_line(&chars_of(""), CommentStyle::Mixed);
    assert!(k.blank);
    assert!(!k.comment && !k.function_like && !k.string_like);
}

#[test]
fn tally_trims_each_line() {
    let t = classify_text("  // a\n\t\n  def f():\n", CommentStyle::Mixed);
    assert_eq!(t.lines, 3);
    assert_eq!(t.blank, 1);
    assert_eq!(t.comment, 1);
    assert_eq!(t.function_like, 1);
}

#[test]
fn extensions_are_lower_cased_and_missing_ones_are_unknown() {
    let mut stats = CodeStats::new();
    analyze_file("A.RS", "fn a() {}\n", 10, &mut stats);
    analyze_file("b.rs", "x\ny\n", 4, &mut stats);
    analyze_file("Makefile", "all:\n", 5, &mut stats);
    let files: Vec<(String, u64)> = stats.files_by_extension.iter().map(|e| (e.ext.clone(), e.count)).collect();
    assert_eq!(files, vec![("rs".to_string(), 2), ("unknown".to_string(), 1)]);
    let lines: Vec<(String, u64)> = stats.lines_by_extension.iter().map(|e| (e.ext.clone(), e.count)).collect();
    assert_eq!(lines, vec![("rs".to_string(), 3), ("unknown".to_string(), 1)]);
    assert_eq!(stats.total_files, 3);
    assert_eq!(stats.total_bytes, 19);
}

#[test]
fn report_lists_every_section() {
    let mut stats = CodeStats::new();
    stats.total_files = 3;
    stats.total_lines = 20;
    stats.blank_lines = 4;
    stats.comment_lines = 6;
    stats.files_by_extension = vec![
        ExtCount { ext: "py".to_string(), count: 1 },
        ExtCount { ext: "rs".to_string(), count: 2 },
    ];
    stats.lines_by_extension = vec![
        ExtCount { ext: "py".to_string(), count: 5 },
        ExtCount { ext: "rs".to_string(), count: 15 },
    ];
    stats.function_count = 2;
    stats.class_count = 1;
    stats.int_count = 3;
    let expected = "Total Files: 3\nTotal Lines: 20\nBlank Lines: 4\nComment Lines: 6\nCode Lines: 10\n\n\
Files by Extension:\n  .rs: 2 files\n  .py: 1 files\n\n\
Lines by Extension:\n  .rs: 15 lines\n  .py: 5 lines\n\n\
Code Elements (approximate):\n  Functions: 2\n  Classes/Structs: 1\n  Int declarations: 3\n  Float declarations: 0\n  String declarations: 0\n  Bool declarations: 0\n\n\
Code Density: 50.0%\n";
    assert_eq!(format_analysis(&stats), expected);
}

#[test]
fn ranking_breaks_ties_by_extension_and_honours_top() {
    let mut stats = CodeStats::new();
    stats.files_by_extension = vec![
        ExtCount { ext: "zz".to_string(), count: 2 },
        ExtCount { ext: "aa".to_string(), count: 2 },
        ExtCount { ext: "mm".to_string(), count: 9 },
    ];
    let all = format_analysis(&stats);
    assert!(all.contains("Files by Extension:\n  .mm: 9 files\n  .aa: 2 files\n  .zz: 2 files\n\n"));
    let top = format_top_analysis(&stats, Some(1));
    assert!(top.contains("Files by Extension:\n  .mm: 9 files\n\nLines by Extension:\n"));
}

#[test]
fn decimal_numerals() {
    assert_eq!(decimal_string(0), "0");
    assert_eq!(decimal_string(7), "7");
    assert_eq!(decimal_string(1200), "1200");
    assert_eq!(decimal_string(u64::MAX), u64::MAX.to_string());
}

#[test]
fn non_ascii_extensions_are_lower_cased() {
    let mut stats = CodeStats::new();
    analyze_file("x.É", "a\n", 2, &mut stats);
    analyze_file("y.é", "b\nc\n", 4, &mut stats);
    let files: Vec<(String, u64)> = stats.files_by_extension.iter().map(|e| (e.ext.clone(), e.count)).collect();
    assert_eq!(files, vec![("é".to_string(), 2)]);
    let lines: Vec<(String, u64)> = stats.lines_by_extension.iter().map(|e| (e.ext.clone(), e.count)).collect();
    assert_eq!(lines, vec![("é".to_string(), 3)]);
}

#[test]
fn keyed_analysis_uses_the_given_key() {
    let mut stats = CodeStats::new();
    analyze_keyed(&chars_of("py"), "# note\nx = 1\n\n", 14, &mut stats);
    assert_eq!(stats.total_lines, 3);
    assert_eq!(stats.comment_lines, 1);
    assert_eq!(stats.blank_lines, 1);
    assert_eq!(stats.files_by_extension[0].ext, "py");
    assert_eq!(stats.total_bytes, 14);
}

#[test]
fn declaration_markers_match_any_case() {
    let k = classify_line(&chars_of("BOOLEAN Flag;"), CommentStyle::Brace);
    assert!(k.bool_like);
    let k = classify_line(&chars_of("Float x;"), CommentStyle::Brace);
    assert!(k.float_like);
}

#[test]
fn lowered_line_decides_declaration_markers() {
    let t = chars_of("X: I32");
    let k = classify_lowered(&t, &chars_of("x: i32"), CommentStyle::Brace);
    assert!(k.int_like);
    let k = classify_lowered(&t, &t, CommentStyle::Brace);
    assert!(!k.int_like);
}
