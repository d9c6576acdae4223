use ssp::config::Config;
use ssp::dump::{format_code_dump, render};
use ssp::stats::CodeStats;
use ssp::walk::{display_structure, walk_node, CapturedFile, Node, Walk};

fn file(name: &str, content: &str) -> Node {
    Node::File { name: name.to_string(), size: content.len() as u64, content: Some(content.to_string()) }
}

fn dir(name: &str, children: Vec<Node>) -> Node {
    Node::Dir { name: name.to_string(), children }
}

fn fixture() -> Vec<Node> {
    vec![file("a.txt", "hello\n"), dir("sub", vec![file("b.py", "x = 1\n"), file(".hidden", "secret\n")])]
}

#[test]
fn default_options_show_visible_entries() {
    let cfg = Config::new();
    let w = display_structure("root", &fixture(), &cfg);
    assert_eq!(w.text, "root/\n├── sub\n│   └── b.py\n└── a.txt\n");
    assert_eq!(w.text.lines().count(), 4);
    assert!(!w.text.contains(".hidden"));
}

#[test]
fn show_hidden_adds_hidden_file() {
    let mut cfg = Config::new();
    cfg.show_hidden = true;
    let w = display_structure("root", &fixture(), &cfg);
    assert_eq!(w.text, "root/\n├── sub\n│   ├── .hidden\n│   └── b.py\n└── a.txt\n");
}

#[test]
fn ignoring_sub_removes_its_subtree() {
    for depth in [None, Some(0), Some(1), Some(5)] {
        let mut cfg = Config::new();
        cfg.ignore("sub".to_string());
        cfg.max_depth = depth;
        let w = display_structure("root", &fixture(), &cfg);
        assert_eq!(w.text, "root/\n└── a.txt\n");
    }
}

#[test]
fn extension_filter_keeps_directories() {
    let mut cfg = Config::new();
    cfg.only_extension = Some("py".to_string());
    let w = display_structure("root", &fixture(), &cfg);
    assert_eq!(w.text, "root/\n└── sub\n    └── b.py\n");
}

#[test]
fn depth_limit_lists_but_does_not_expand() {
    let mut cfg = Config::new();
    cfg.max_depth = Some(0);
    let w = display_structure("root", &fixture(), &cfg);
    assert_eq!(w.text, "root/\n├── sub\n└── a.txt\n");
    let tree = vec![dir("a", vec![dir("b", vec![dir("c", vec![file("d.txt", "")])])])];
    cfg.max_depth = Some(1);
    let w = display_structure("r", &tree, &cfg);
    assert_eq!(w.text, "r/\n└── a\n    └── b\n");
}

#[test]
fn only_folders_hides_files() {
    let mut cfg = Config::new();
    cfg.only_folders = true;
    let w = display_structure("root", &fixture(), &cfg);
    assert_eq!(w.text, "root/\n└── sub\n");
}

#[test]
fn line_counts_follow_file_names() {
    let mut cfg = Config::new();
    cfg.show_lines = true;
    let tree = vec![file("a.rs", "fn main() {\n}\n"), file("b.bin", ""), Node::File {
        name: "c.dat".to_string(),
        size: 4,
        content: None,
    }];
    let w = display_structure("p", &tree, &cfg);
    assert_eq!(w.text, "p/\n├── a.rs (2)\n├── b.bin (0)\n└── c.dat (0)\n");
}

#[test]
fn default_ignores_hide_build_directories() {
    let cfg = Config::new();
    let tree = vec![dir("target", vec![file("x", "")]), dir(".git", vec![]), dir("node_modules", vec![]), dir("src", vec![])];
    let w = display_structure("p", &tree, &cfg);
    assert_eq!(w.text, "p/\n└── src\n");
}

#[test]
fn one_line_per_visible_entry() {
    let mut cfg = Config::new();
    cfg.show_hidden = true;
    let tree = vec![
        dir("x", vec![dir("y", vec![file("1", ""), file("2", "")]), file("3", "")]),
        file("4", ""),
        dir("z", vec![]),
    ];
    let w = display_structure("r", &tree, &cfg);
    assert_eq!(w.text.lines().count(), 1 + 7);
}

#[test]
fn nested_prefixes_keep_ancestor_bars() {
    let cfg = Config::new();
    let tree = vec![dir("a", vec![dir("b", vec![file("c", "")]), file("d", "")]), file("e", "")];
    let w = display_structure("r", &tree, &cfg);
    assert_eq!(w.text, "r/\n├── a\n│   ├── b\n│   │   └── c\n│   └── d\n└── e\n");
}

#[test]
fn captured_files_follow_visiting_order() {
    let mut cfg = Config::new();
    cfg.show_code = true;
    let w = display_structure("root", &fixture(), &cfg);
    let paths: Vec<&str> = w.captured.iter().map(|c| c.path.as_str()).collect();
    assert_eq!(paths, vec!["sub/b.py", "a.txt"]);
    assert_eq!(w.captured[0].content, "x = 1\n");
}

#[test]
fn nothing_captured_without_show_code() {
    let cfg = Config::new();
    let w = display_structure("root", &fixture(), &cfg);
    assert!(w.captured.is_empty());
    assert_eq!(w.stats.total_files, 0);
}

#[test]
fn code_dump_numbers_files() {
    let files = vec![
        CapturedFile { path: "a.txt".to_string(), content: "hi".to_string() },
        CapturedFile { path: "sub/b.py".to_string(), content: "x".to_string() },
    ];
    let rule = "-".repeat(80);
    let expected = format!("1. a.txt:\n\nhi\n\n{}\n\n2. sub/b.py:\n\nx\n\n{}\n\n", rule, rule);
    assert_eq!(format_code_dump(&files), expected);
}

#[test]
fn render_joins_sections() {
    let mut cfg = Config::new();
    cfg.show_code = true;
    let tree = vec![file("a.txt", "hi")];
    let out = render("r", &tree, &cfg);
    let rule = "-".repeat(80);
    assert_eq!(out, format!("r/\n└── a.txt\n\n\n=== CODE CONTENT ===\n\n1. a.txt:\n\nhi\n\n{}\n\n", rule));
}

#[test]
fn render_with_analysis_appends_report() {
    let mut cfg = Config::new();
    cfg.analyze_code = true;
    let tree = vec![file("m.py", "# c\nx = 1\n")];
    let out = render("r", &tree, &cfg);
    assert!(out.starts_with("r/\n└── m.py\n\n\n=== CODE ANALYSIS ===\n\nTotal Files: 1\nTotal Lines: 2\n"));
    assert!(out.ends_with("Code Density: 50.0%\n"));
}

#[test]
fn directory_at_depth_limit_adds_one_line() {
    let mut cfg = Config::new();
    cfg.max_depth = Some(2);
    cfg.show_code = true;
    cfg.analyze_code = true;
    let node = dir("deep", vec![file("a.rs", "fn a() {}\n"), dir("inner", vec![])]);
    let mut out = Walk { text: String::from("x\n"), captured: Vec::new(), stats: CodeStats::new() };
    walk_node(&cfg, &node, &"│   ".to_string(), true, 2, &"top".to_string(), &mut out);
    assert_eq!(out.text, "x\n│   └── deep\n");
    assert!(out.captured.is_empty());
    assert_eq!(out.stats.total_files, 0);
}

#[test]
fn directory_below_limit_adds_its_children() {
    let mut cfg = Config::new();
    cfg.max_depth = Some(2);
    cfg.show_code = true;
    let node = dir("deep", vec![file("a.rs", "fn a() {}\n"), dir("inner", vec![file("z", "")])]);
    let mut out = Walk { text: String::new(), captured: Vec::new(), stats: CodeStats::new() };
    walk_node(&cfg, &node, &String::new(), false, 1, &"top".to_string(), &mut out);
    assert_eq!(out.text, "├── deep\n│   ├── inner\n│   └── a.rs\n");
    assert_eq!(out.captured.len(), 1);
    assert_eq!(out.captured[0].path, "top/deep/a.rs");
}
