use fuzz_suite::{
    count_lines, count_total_lines, render_lcov, format_source_with_coverage, BranchInfo,
    Coverage, CoverageConfig, CoverageData, Location,
};

fn loc(file: &str, line: u32, column: u32) -> Location {
    Location { file: file.to_string(), line, column }
}

#[test]
fn parse_line_fields() {
    let c = Coverage::new(CoverageConfig::default());
    assert_eq!(c.parse_coverage_line("foo.c:12:5:extra"), Some(loc("foo.c", 12, 5)));
    assert_eq!(c.parse_coverage_line("foo.c:+7:0"), Some(loc("foo.c", 7, 0)));
    assert_eq!(c.parse_coverage_line("foo.c:12"), None);
    assert_eq!(c.parse_coverage_line("foo.c:x:1"), None);
    assert_eq!(c.parse_coverage_line("foo.c:1:"), None);
    assert_eq!(c.parse_coverage_line("foo.c:4294967296:1"), None);
    assert_eq!(c.parse_coverage_line("foo.c:4294967295:1"), Some(loc("foo.c", 4294967295, 1)));
    assert_eq!(c.parse_coverage_line("foo.c:-1:1"), None);
    assert_eq!(c.parse_coverage_line(":3:4"), Some(loc("", 3, 4)));
}

#[test]
fn ingest_skips_malformed_and_dedups() {
    let mut c = Coverage::new(CoverageConfig::default());
    c.ingest("a.c:1:1\nnot a fact\nb.c:2:3\r\na.c:1:1\n\n");
    assert_eq!(c.covered_line_count(), 2);
    let d = c.get_coverage_data();
    assert!(d.lines.contains(&loc("a.c", 1, 1)));
    assert!(d.lines.contains(&loc("b.c", 2, 3)));
}

#[test]
fn reingest_is_idempotent() {
    let mut c = Coverage::new(CoverageConfig::default());
    c.ingest("a.c:1:1\na.c:2:1\n");
    let before = c.covered_line_count();
    c.ingest("a.c:2:1\n");
    assert_eq!(c.covered_line_count(), before);
    c.ingest("a.c:1:1\na.c:2:1\n");
    assert_eq!(c.covered_line_count(), before);
}

#[test]
fn coverage_never_decreases() {
    let mut c = Coverage::new(CoverageConfig::default());
    let mut last = 0;
    for text in ["x.c:1:1", "garbage", "x.c:2:1\nx.c:1:1", "", "y.c:9:9"] {
        c.ingest(text);
        let (covered, total) = c.line_coverage(10).unwrap();
        assert_eq!(total, 10);
        assert!(covered >= last);
        last = covered;
    }
    assert_eq!(last, 3);
}

#[test]
fn zero_total_lines_gives_no_ratio() {
    let mut c = Coverage::new(CoverageConfig::default());
    c.ingest("x.c:1:1\n");
    assert_eq!(c.line_coverage(0), None);
    assert_eq!(c.line_coverage(4), Some((1, 4)));
}

#[test]
fn includes_only_headers() {
    let mut c = Coverage::new(CoverageConfig::default());
    let paths = vec![
        "src/a.h".to_string(),
        "src/b.hpp".to_string(),
        "src/c.c".to_string(),
        "src/a.h".to_string(),
        "src/.h".to_string(),
    ];
    c.record_includes(&paths);
    let d = c.get_coverage_data();
    assert_eq!(d.includes, vec!["src/a.h".to_string(), "src/b.hpp".to_string()]);
}

#[test]
fn line_counts() {
    assert_eq!(count_lines(""), 0);
    assert_eq!(count_lines("a"), 1);
    assert_eq!(count_lines("a\n"), 1);
    assert_eq!(count_lines("a\nb"), 2);
    assert_eq!(count_lines("\n\n"), 2);
    let entries = vec![
        ("main.c".to_string(), "int x;\nint y;\n".to_string()),
        ("notes.txt".to_string(), "1\n2\n3\n".to_string()),
        ("lib.cpp".to_string(), "a\nb\nc".to_string()),
    ];
    assert_eq!(count_total_lines(&entries), 5);
    assert_eq!(count_total_lines(&vec![]), 0);
}

fn sample_data() -> CoverageData {
    CoverageData {
        lines: vec![loc("b.c", 3, 1), loc("a.c", 1, 2), loc("b.c", 3, 7), loc("b.c", 5, 1)],
        branches: vec![
            (loc("b.c", 5, 2), BranchInfo { taken: true, count: 4, condition: None }),
            (loc("b.c", 6, 2), BranchInfo { taken: false, count: 9, condition: None }),
            (loc("c.c", 2, 2), BranchInfo { taken: true, count: 1, condition: Some("x".into()) }),
        ],
        functions: vec![],
        includes: vec![],
    }
}

#[test]
fn lcov_blocks_per_file() {
    let text = render_lcov(&sample_data());
    let expected = "SF:a.c\nFNF:0\nFNH:0\nDA:1,1\nend_of_record\n\
SF:b.c\nFNF:0\nFNH:0\nDA:3,1\nDA:5,1\nBRDA:5,0,0,4\nBRDA:6,0,0,0\nend_of_record\n\
SF:c.c\nFNF:0\nFNH:0\nBRDA:2,0,0,1\nend_of_record\n";
    assert_eq!(text, expected);
    assert_eq!(text.matches("SF:").count(), 3);
    assert_eq!(text.matches("DA:").count() - text.matches("BRDA:").count(), 3);
}

#[test]
fn lcov_sorts_files_and_lines() {
    let d = CoverageData {
        lines: vec![loc("z/m.c", 40, 1), loc("a/b.c", 9, 1), loc("z/m.c", 2, 1), loc("a/b.c", 10, 3)],
        branches: vec![],
        functions: vec![],
        includes: vec![],
    };
    let text = render_lcov(&d);
    assert_eq!(
        text,
        "SF:a/b.c\nFNF:0\nFNH:0\nDA:9,1\nDA:10,1\nend_of_record\n\
SF:z/m.c\nFNF:0\nFNH:0\nDA:2,1\nDA:40,1\nend_of_record\n"
    );
}

#[test]
fn lcov_of_empty_data() {
    let d = CoverageData { lines: vec![], branches: vec![], functions: vec![], includes: vec![] };
    assert_eq!(render_lcov(&d), "");
}

#[test]
fn annotated_source() {
    let source = "int a;\r\nint b;\nint c;";
    let out = format_source_with_coverage(source, &sample_data(), "b.c");
    assert_eq!(out, "#  1 int a;\n#  2 int b;\n  3 int c;\n");
    let long: String = (0..12).map(|_| "x\n").collect();
    let out = format_source_with_coverage(&long, &sample_data(), "b.c");
    let lines: Vec<&str> = out.lines().collect();
    assert_eq!(lines.len(), 12);
    assert_eq!(lines[4], "  5 x");
    assert_eq!(lines[9], "# 10 x");
    assert_eq!(format_source_with_coverage("", &sample_data(), "b.c"), "");
}

#[test]
fn default_configuration() {
    let c = CoverageConfig::default();
    assert_eq!(c.output_dir, "coverage");
    assert_eq!(c.source_dir, "src");
    assert_eq!(c.profile_data, "coverage.profdata");
    assert_eq!(c.compiler.optimization_level, "-O0");
}

#[test]
fn insert_line_keeps_keys_unique() {
    let mut d = CoverageData { lines: vec![], branches: vec![], functions: vec![], includes: vec![] };
    d.insert_line(loc("a.c", 1, 1));
    d.insert_line(loc("a.c", 1, 1));
    d.insert_line(loc("a.c", 1, 2));
    assert_eq!(d.lines.len(), 2);
}
