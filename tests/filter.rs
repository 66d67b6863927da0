use cargo_diff_tools::{
    annotation_kind, escape_github_message, parse_diff, render_diagnostic,
    should_report_diagnostic, Diagnostic, Level, Message, OutputKind, Span,
};

fn span(file: &str, start: usize, end: usize, primary: bool) -> Span {
    Span {
        file_name: file.to_string(),
        line_start: start,
        line_end: end,
        column_start: 3,
        column_end: 9,
        is_primary: primary,
    }
}

fn diag(level: Level, spans: Vec<Span>) -> Diagnostic {
    Diagnostic {
        message: Some(Message { level, rendered: "msg 50%\nnext".to_string(), spans }),
    }
}

#[test]
fn warning_on_changed_lines_end_to_end() {
    let fc = parse_diff("+++ b/f.rs\n@@ -1 +10,5 @@\n").unwrap();
    assert_eq!(fc.get("f.rs").unwrap().as_slice(), &[(10, 5)]);
    assert!(should_report_diagnostic(&diag(Level::Warning, vec![span("f.rs", 12, 12, true)]), &fc));
    assert!(!should_report_diagnostic(&diag(Level::Warning, vec![span("f.rs", 20, 20, true)]), &fc));
}

#[test]
fn warning_in_unchanged_file_is_suppressed() {
    let fc = parse_diff("+++ b/f.rs\n@@ -1 +10,5 @@\n").unwrap();
    assert!(!should_report_diagnostic(&diag(Level::Warning, vec![span("g.rs", 12, 12, true)]), &fc));
    assert!(should_report_diagnostic(&diag(Level::Warning, vec![span("f.rs", 8, 11, true)]), &fc));
}

#[test]
fn warning_with_any_span_on_changes_is_reported() {
    let fc = parse_diff("+++ b/f.rs\n@@ -1 +10,5 @@\n").unwrap();
    let d = diag(Level::Warning, vec![span("g.rs", 12, 12, true), span("f.rs", 14, 30, false)]);
    assert!(should_report_diagnostic(&d, &fc));
    assert!(!should_report_diagnostic(&diag(Level::Warning, vec![]), &fc));
}

#[test]
fn non_warnings_are_always_reported() {
    let empty = parse_diff("").unwrap();
    for level in [Level::Error, Level::Note, Level::Help] {
        assert!(should_report_diagnostic(&diag(level, vec![span("g.rs", 1, 1, true)]), &empty));
        assert!(should_report_diagnostic(&diag(level, vec![]), &empty));
    }
}

#[test]
fn record_without_message_is_reported() {
    let empty = parse_diff("").unwrap();
    assert!(should_report_diagnostic(&Diagnostic { message: None }, &empty));
}

#[test]
fn escape_percent_and_line_breaks() {
    assert_eq!(escape_github_message("100%\r\nok"), "100%25%0D%0Aok");
    assert_eq!(escape_github_message(""), "");
    assert_eq!(escape_github_message("plain"), "plain");
}

#[test]
fn primary_span_is_first_primary() {
    let m = Message {
        level: Level::Error,
        rendered: String::new(),
        spans: vec![span("a.rs", 1, 1, false), span("b.rs", 2, 2, true), span("c.rs", 3, 3, true)],
    };
    assert_eq!(m.primary_span().unwrap().file_name, "b.rs");
    let none = Message { level: Level::Error, rendered: String::new(), spans: vec![span("a.rs", 1, 1, false)] };
    assert!(none.primary_span().is_none());
}

#[test]
fn annotation_kinds() {
    assert_eq!(annotation_kind(Level::Help), "debug");
    assert_eq!(annotation_kind(Level::Note), "debug");
    assert_eq!(annotation_kind(Level::Warning), "warning");
    assert_eq!(annotation_kind(Level::Error), "error");
}

#[test]
fn render_each_format() {
    let d = diag(Level::Warning, vec![span("a.rs", 1, 1, false), span("src/b.rs", 120, 121, true)]);
    assert_eq!(render_diagnostic("{\"x\":1}", &d, OutputKind::Json).unwrap(), "{\"x\":1}");
    assert_eq!(render_diagnostic("{}", &d, OutputKind::Rendered).unwrap(), "msg 50%\nnext");
    assert_eq!(
        render_diagnostic("{}", &d, OutputKind::GitHub).unwrap(),
        "::warning file=src/b.rs,line=120,col=3::msg 50%25%0Anext"
    );
    let no_primary = diag(Level::Error, vec![span("a.rs", 1, 1, false)]);
    assert!(render_diagnostic("{}", &no_primary, OutputKind::GitHub).is_none());
    let bare = Diagnostic { message: None };
    assert!(render_diagnostic("{}", &bare, OutputKind::Rendered).is_none());
    assert_eq!(render_diagnostic("{}", &bare, OutputKind::Json).unwrap(), "{}");
    let d0 = diag(Level::Help, vec![span("z.rs", 0, 0, true)]);
    assert_eq!(
        render_diagnostic("{}", &d0, OutputKind::GitHub).unwrap(),
        "::debug file=z.rs,line=0,col=3::msg 50%25%0Anext"
    );
}
