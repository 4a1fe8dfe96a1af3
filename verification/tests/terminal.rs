use commit_miner::model::{Category, Taxonomy};
use commit_miner::terminal::{clean, ColorMode, Terminal};

fn plain(width: usize) -> Terminal {
    Terminal { color: false, width }
}

#[test]
fn printing_drops_controls_and_direction_marks() {
    assert_eq!(clean("a\u{7}b\u{202e}c\u{2066}d\te\u{85}f"), "abcdef");
    assert_eq!(clean("héllo · 🙂"), "héllo · 🙂");
}

#[test]
fn terminal_settings_from_the_environment() {
    let t = Terminal::from_environment(ColorMode::Auto, false, true, false, Some("xterm"), Some(200));
    assert!(t.color);
    assert_eq!(t.width, 120);
    assert!(!Terminal::from_environment(ColorMode::Auto, false, true, true, Some("xterm"), None).color);
    assert!(!Terminal::from_environment(ColorMode::Auto, false, false, false, Some("xterm"), None).color);
    assert!(!Terminal::from_environment(ColorMode::Auto, false, true, false, Some("dumb"), None).color);
    assert!(!Terminal::from_environment(ColorMode::Auto, false, true, false, None, None).color);
    assert!(Terminal::from_environment(ColorMode::Always, false, false, false, None, None).color);
    assert!(!Terminal::from_environment(ColorMode::Always, true, true, false, None, None).color);
    assert!(!Terminal::from_environment(ColorMode::Never, false, true, false, Some("xterm"), None).color);
    assert_eq!(Terminal::from_environment(ColorMode::Never, false, true, false, None, Some(10)).width, 16);
    assert_eq!(Terminal::from_environment(ColorMode::Never, false, true, false, None, None).width, 100);
}

#[test]
fn activity_and_headings() {
    assert_eq!(plain(80).activity("Reading history"), "  › Reading history");
    assert_eq!(plain(16).activity("Reading commit history"), "  › Reading co\n    mmit histo\n    ry");
    assert_eq!(plain(80).heading("Commits", "3 results"), "\n  Commits\n  3 results\n");
    assert_eq!(plain(80).heading("Empty", ""), "\n  Empty\n  \n");
}

fn taxonomy() -> Taxonomy {
    let category = |id: &str, label: &str, family: &str, cwe: Option<u32>| Category {
        id: id.to_string(),
        label: label.to_string(),
        family: family.to_string(),
        description: String::new(),
        cwe,
    };
    Taxonomy {
        categories: vec![
            category("sql_injection", "SQL injection", "security", Some(89)),
            category("logic_error", "Logic error", "bug", None),
        ],
        core_questions: vec![],
    }
}

#[test]
fn classification_list() {
    let wide = plain(100).categories(&taxonomy());
    let expected = [
        "\n  Classifications\n  security · bug · change · context · unclassified\n".to_string(),
        "  SECURITY".to_string(),
        format!("  {:<24}  SQL injection · CWE-89", "sql_injection"),
        String::new(),
        "  BUG".to_string(),
        format!("  {:<24}  Logic error", "logic_error"),
        String::new(),
        "  CHANGE".to_string(),
        String::new(),
    ]
    .join("\n");
    assert_eq!(wide, expected);
    let narrow = plain(60).categories(&taxonomy());
    assert!(narrow.contains("\n  SECURITY\n  sql_injection\n    SQL injection · CWE-89\n\n  BUG\n  logic_error\n    Logic error\n\n  CHANGE\n"));
}
