use ssp::config::Config;
use ssp::entry::{entry_before_keyed, entry_visible, extension, filter_and_sort_entries, Entry};
use ssp::text::chars_of;

fn entry(name: &str, is_dir: bool, slot: usize) -> Entry {
    Entry { name: name.to_string(), is_dir, slot }
}

fn names(v: &[Entry]) -> Vec<String> {
    v.iter().map(|e| e.name.clone()).collect()
}

fn ext(name: &str) -> Option<String> {
    extension(&chars_of(name)).map(|v| v.into_iter().collect())
}

#[test]
fn directories_first_then_case_insensitive_names() {
    let cfg = Config::new();
    let mut v = vec![
        entry("b.txt", false, 0),
        entry("Zeta", true, 1),
        entry("A.txt", false, 2),
        entry("alpha", true, 3),
    ];
    filter_and_sort_entries(&mut v, &cfg);
    assert_eq!(names(&v), vec!["alpha", "Zeta", "A.txt", "b.txt"]);
}

#[test]
fn equal_lower_case_names_fall_back_to_exact_order() {
    let cfg = Config::new();
    let mut v = vec![entry("a", false, 0), entry("A", false, 1)];
    filter_and_sort_entries(&mut v, &cfg);
    assert_eq!(names(&v), vec!["A", "a"]);
}

#[test]
fn sorting_twice_changes_nothing() {
    let cfg = Config::new();
    let mut v = vec![
        entry("x.rs", false, 0),
        entry(".hidden", false, 1),
        entry("Docs", true, 2),
        entry("apple", false, 3),
        entry("target", true, 4),
    ];
    filter_and_sort_entries(&mut v, &cfg);
    let once = names(&v);
    filter_and_sort_entries(&mut v, &cfg);
    assert_eq!(names(&v), once);
    assert_eq!(once, vec!["Docs", "apple", "x.rs"]);
}

#[test]
fn hidden_rule_applies_to_directories() {
    let cfg = Config::new();
    assert!(!entry_visible(&cfg, ".cache", true));
    assert!(!entry_visible(&cfg, ".env", false));
    let mut shown = Config::new();
    shown.show_hidden = true;
    assert!(entry_visible(&shown, ".cache", true));
    assert!(!entry_visible(&shown, ".git", true));
}

#[test]
fn extension_filter_is_exact() {
    let mut cfg = Config::new();
    cfg.only_extension = Some("rs".to_string());
    assert!(entry_visible(&cfg, "main.rs", false));
    assert!(!entry_visible(&cfg, "main.RS", false));
    assert!(!entry_visible(&cfg, "rs", false));
    assert!(entry_visible(&cfg, "notes", true));
}

#[test]
fn extension_follows_last_dot() {
    assert_eq!(ext("archive.tar.gz"), Some("gz".to_string()));
    assert_eq!(ext(".bashrc"), None);
    assert_eq!(ext("Makefile"), None);
    assert_eq!(ext("file."), Some(String::new()));
    assert_eq!(ext(".config.toml"), Some("toml".to_string()));
}

#[test]
fn ignore_adds_a_name() {
    let mut cfg = Config::new();
    assert!(entry_visible(&cfg, "build", true));
    cfg.ignore("build".to_string());
    assert!(!entry_visible(&cfg, "build", true));
    assert!(entry_visible(&cfg, "build", false));
}

#[test]
fn non_ascii_names_compare_case_insensitively() {
    let cfg = Config::new();
    let mut v = vec![entry("Äb", false, 0), entry("äa", false, 1)];
    filter_and_sort_entries(&mut v, &cfg);
    assert_eq!(names(&v), vec!["äa", "Äb"]);
}

#[test]
fn keyed_order_uses_the_given_lower_case_forms() {
    let a = entry("Äb", false, 0);
    let b = entry("äa", false, 1);
    assert!(!entry_before_keyed(&chars_of("äb"), &a, &chars_of("äa"), &b));
    assert!(entry_before_keyed(&chars_of("äa"), &b, &chars_of("äb"), &a));
    let d = entry("zz", true, 2);
    assert!(entry_before_keyed(&chars_of("zz"), &d, &chars_of("äa"), &b));
    let upper = entry("A", false, 0);
    let lower = entry("a", false, 1);
    assert!(entry_before_keyed(&chars_of("a"), &upper, &chars_of("a"), &lower));
    assert!(!entry_before_keyed(&chars_of("a"), &lower, &chars_of("a"), &upper));
}
