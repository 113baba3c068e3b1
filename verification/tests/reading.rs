use shoumei::Diagnostic;
use shoumei::DiagnosticResult;
use shoumei::ErrorEmitter;
use shoumei::ErrorMessage;
use shoumei::FileContents;
use shoumei::ModulePath;
use shoumei::Severity;
use shoumei::SourceLine;
use shoumei::decimal::decimal_string;
use shoumei::source::read_lines;

fn mp(segments: &[&str]) -> ModulePath {
    ModulePath(segments.iter().map(|s| s.to_string()).collect())
}

#[test]
fn decimal_renders_zero() {
    assert!(decimal_string(0) == "0");
}

#[test]
fn decimal_renders_round_numbers() {
    assert!(decimal_string(10) == "10");
    assert!(decimal_string(100) == "100");
}

#[test]
fn decimal_renders_all_digits() {
    assert!(decimal_string(1234567890) == "1234567890");
}

#[test]
fn read_lines_keeps_valid_text_in_order() {
    let contents = FileContents::Lines(vec![
        SourceLine::Text("one".to_string()),
        SourceLine::Text("two".to_string()),
    ]);
    match read_lines(&mp(&["m"]), contents) {
        DiagnosticResult::Success { value, diagnostics } => {
            assert!(value == vec!["one".to_string(), "two".to_string()]);
            assert!(diagnostics.is_empty());
        }
        DiagnosticResult::Fail { .. } => panic!("expected the lines"),
    }
}

#[test]
fn read_lines_reports_unopenable_file() {
    match read_lines(&mp(&["m"]), FileContents::Unopenable) {
        DiagnosticResult::Success { .. } => panic!("expected a failure"),
        DiagnosticResult::Fail { diagnostics } => {
            assert!(diagnostics.len() == 1);
            assert!(diagnostics[0].text == "cannot open file");
        }
    }
}

#[test]
fn read_lines_stops_at_first_invalid_line() {
    let contents = FileContents::Lines(vec![
        SourceLine::Text("ok".to_string()),
        SourceLine::Invalid,
        SourceLine::Invalid,
    ]);
    match read_lines(&mp(&["m"]), contents) {
        DiagnosticResult::Success { .. } => panic!("expected a failure"),
        DiagnosticResult::Fail { diagnostics } => {
            assert!(diagnostics.len() == 1);
            assert!(diagnostics[0].text == "file contained invalid UTF-8 on line 2");
            assert!(diagnostics[0].severity == Severity::Error);
        }
    }
}

#[test]
fn emitter_collects_in_order_and_drains() {
    let mut emitter = ErrorEmitter::new();
    emitter.process(vec![ErrorMessage::new(
        "first".to_string(),
        Severity::Warning,
        Diagnostic::in_file(mp(&["m"])),
    )]);
    let carried: DiagnosticResult<u32> = DiagnosticResult::Success {
        value: 9,
        diagnostics: vec![ErrorMessage::new(
            "second".to_string(),
            Severity::Error,
            Diagnostic::in_file(mp(&["m"])),
        )],
    };
    let value = emitter.consume_diagnostic(carried);
    assert!(value == Some(9));
    let drained = emitter.take();
    assert!(drained.len() == 2);
    assert!(drained[0].text == "first");
    assert!(drained[1].text == "second");
    assert!(emitter.messages().is_empty());
}

#[test]
fn consume_diagnostic_of_failure_yields_nothing() {
    let mut emitter = ErrorEmitter::new();
    let carried: DiagnosticResult<u32> = DiagnosticResult::fail(ErrorMessage::new(
        "gone".to_string(),
        Severity::Error,
        Diagnostic::in_file(mp(&["m"])),
    ));
    let value = emitter.consume_diagnostic(carried);
    assert!(value == None);
    assert!(emitter.messages().len() == 1);
}
