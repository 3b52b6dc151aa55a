use mrdu::display_info::SPACING;
use mrdu::{render, AnalysisItem, AnalyzeError, Arguments, DisplayRow, Percent};

fn file(name: &str, size: u64) -> Result<AnalysisItem, AnalyzeError> {
    Ok(AnalysisItem::leaf(name.to_string(), size))
}

fn dir(name: &str, entries: Vec<Result<AnalysisItem, AnalyzeError>>) -> Result<AnalysisItem, AnalyzeError> {
    AnalysisItem::directory(name.to_string(), entries)
}

/// The tree of the `tests/test_file` fixture directory.
fn fixture() -> AnalysisItem {
    dir(
        "test_file",
        vec![
            dir("test_dir_hidden_file", vec![file(".test_file", 5380)]),
            file("test_file_d1", 5380),
            dir(
                "test_dir_",
                vec![file("test_file\u{1F604}.unicode", 5380), file("small", 140)],
            ),
            dir("test_dir_d2", vec![file("test_file_d2", 5380), file("small_d2", 140)]),
        ],
    )
    .unwrap()
}

fn percent(row: &DisplayRow) -> f64 {
    let s = row.info.occupied_size;
    if s.whole == 0 {
        0.0
    } else {
        100.0 * s.part as f64 / s.whole as f64
    }
}

/// The text the command-line front end prints for the rendered lines.
fn output(target: &str, rows: &[DisplayRow], decimals: usize) -> String {
    let mut text = format!("\nAnalyzing: {}\n\n", target);
    for row in rows {
        text += &format!(
            "{}{} {:.*}% [{}] {} {}\n",
            row.info.prefix,
            row.info.display_prefix(true),
            decimals,
            percent(row),
            row.disk_size,
            SPACING,
            row.name
        );
    }
    text
}

fn args(max_depth: usize) -> Arguments {
    let mut a = Arguments::new();
    a.max_depth = max_depth;
    a
}

#[test]
fn test_no_args_analyse() {
    let rows = render(&fixture(), &Arguments::new());
    let output = output("tests/test_file", &rows, 2);
    assert!(output.contains("Analyzing: tests/test_file"));
    assert!(output.contains("└──"));
    assert!(output.contains("    ├──"));
    assert!(output.contains("    │  └──"));
    assert!(output.contains("    └──"));
    assert!(output.contains(" ── "));
}

#[test]
fn test_depth_analyse() {
    let rows = render(&fixture(), &args(1));
    let output = output("tests/test_file", &rows, 2);
    assert!(output.contains("Analyzing: tests/test_file"));
    assert!(output.contains("└──"));
    assert!(output.contains("    ├──"));
    assert!(output.contains("    └──"));
    assert!(output.contains(" ── "));
    assert!(!output.contains("│  └──"));
}

#[test]
fn test_max_depth_analyse() {
    let rows = render(&fixture(), &args(2));
    let output = output("tests/test_file", &rows, 2);
    assert!(output.contains("Analyzing: tests/test_file"));
    assert!(output.contains("└──"));
    assert!(output.contains("    ├──"));
    assert!(output.contains("    │  └──"));
    assert!(output.contains("    └──"));
    assert!(output.contains(" ── "));
}

#[test]
fn fixture_round_trip_percentages() {
    let root = fixture();
    assert_eq!(root.disk_size, 21800);
    let sizes: Vec<u64> = root.children.as_ref().unwrap().iter().map(|c| c.disk_size).collect();
    assert_eq!(sizes, vec![5520, 5520, 5380, 5380]);
    let mut config = Arguments::new();
    config.min_percent = Percent { num: 1, den: 100 };
    let rows = render(&root, &config);
    let top: Vec<String> = rows
        .iter()
        .filter(|r| r.info.dir_level == 1)
        .map(|r| format!("{:.2}", percent(r)))
        .collect();
    assert_eq!(top, vec!["25.32", "25.32", "24.68", "24.68"]);
    assert_eq!(format!("{:.2}", percent(&rows[0])), "100.00");
}

#[test]
fn high_threshold_keeps_only_root() {
    let mut config = Arguments::new();
    config.min_percent = Percent { num: 50, den: 1 };
    let rows = render(&fixture(), &config);
    assert_eq!(rows.len(), 1);
    assert_eq!(rows[0].name, "test_file");
    assert_eq!(rows[0].disk_size, 21800);
}

#[test]
fn rendered_lines_in_pre_order() {
    let root = dir(
        "root",
        vec![
            file("b", 300),
            dir("c", vec![file("c1", 200)]),
            dir("a", vec![file("a2", 100), file("a1", 500)]),
        ],
    )
    .unwrap();
    let rows = render(&root, &Arguments::new());
    let lines: Vec<(String, usize, bool, String)> = rows
        .iter()
        .map(|r| (r.name.clone(), r.info.dir_level, r.info.is_last, r.info.prefix.clone()))
        .collect();
    let expected = vec![
        ("root", 0, true, ""),
        ("a", 1, false, "    "),
        ("a1", 2, false, "    │  "),
        ("a2", 2, true, "    │  "),
        ("b", 1, false, "    "),
        ("c", 1, true, "    "),
        ("c1", 2, true, "        "),
    ];
    assert_eq!(lines.len(), expected.len());
    for (got, want) in lines.iter().zip(expected.iter()) {
        assert_eq!(got.0, want.0);
        assert_eq!(got.1, want.1);
        assert_eq!(got.2, want.2);
        assert_eq!(got.3, want.3);
    }
}

#[test]
fn depth_never_exceeds_limit() {
    for depth in 0..4usize {
        let rows = render(&fixture(), &args(depth));
        assert!(rows.iter().all(|r| r.info.dir_level <= depth));
    }
    assert_eq!(render(&fixture(), &args(0)).len(), 1);
}

#[test]
fn shown_children_exceed_threshold() {
    let mut config = Arguments::new();
    config.min_percent = Percent { num: 3, den: 1 };
    let rows = render(&fixture(), &config);
    assert!(rows[1..].iter().all(|r| percent(r) > 3.0));
    assert!(!rows.iter().any(|r| r.name == "small" || r.name == "small_d2"));
    config.min_percent = Percent { num: 2, den: 1 };
    let rows = render(&fixture(), &config);
    assert!(rows.iter().any(|r| r.name == "small"));
}

#[test]
fn exactly_one_last_per_sibling_group() {
    let mut config = Arguments::new();
    config.min_percent = Percent { num: 1, den: 100 };
    let rows = render(&fixture(), &config);
    let level_one: Vec<bool> = rows.iter().filter(|r| r.info.dir_level == 1).map(|r| r.info.is_last).collect();
    assert_eq!(level_one, vec![false, false, false, true]);
    let under_first: Vec<bool> = rows[2..4].iter().map(|r| r.info.is_last).collect();
    assert_eq!(under_first, vec![false, true]);
}

#[test]
fn zero_size_parent_shows_no_children() {
    let root = dir("empty_files", vec![file("a", 0), file("b", 0)]).unwrap();
    assert_eq!(root.disk_size, 0);
    let mut config = Arguments::new();
    config.min_percent = Percent { num: 0, den: 1 };
    assert_eq!(render(&root, &config).len(), 1);
}

#[test]
fn empty_directory_renders_root_only() {
    let root = dir("nothing", vec![]).unwrap();
    assert_eq!(root.disk_size, 0);
    assert_eq!(root.children.as_ref().unwrap().len(), 0);
    assert_eq!(render(&root, &Arguments::new()).len(), 1);
}
