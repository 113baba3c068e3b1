use shoumei::Diagnostic;
use shoumei::DiagnosticResult;
use shoumei::ErrorMessage;
use shoumei::FileContents;
use shoumei::ModulePath;
use shoumei::Severity;
use shoumei::SourceLine;
use shoumei::parse;
use shoumei::pipeline::BracketTree;
use shoumei::pipeline::ModuleP;
use shoumei::pipeline::ModuleTypesC;
use shoumei::pipeline::Passes;
use shoumei::pipeline::ProjectIndexI;
use shoumei::pipeline::ProjectTypesC;
use shoumei::pipeline::TokenBlock;
use shoumei::pipeline::TokenStream;

fn mp(segments: &[&str]) -> ModulePath {
    ModulePath(segments.iter().map(|s| s.to_string()).collect())
}

fn message(text: &str, severity: Severity) -> ErrorMessage {
    ErrorMessage::new(text.to_string(), severity, Diagnostic::in_file(mp(&["m"])))
}

fn one_line_file(text: &str) -> FileContents {
    FileContents::Lines(vec![SourceLine::Text(text.to_string())])
}

/// A pass suite that counts its invocations and emits what each test asks.
struct CountingPasses {
    lex_calls: u32,
    indent_calls: u32,
    bracket_calls: u32,
    parse_calls: u32,
    types_calls: u32,
    index_calls: u32,
    parser_diagnostic: Option<ErrorMessage>,
    types_diagnostic: Option<ErrorMessage>,
}

impl CountingPasses {
    fn new() -> Self {
        Self {
            lex_calls: 0,
            indent_calls: 0,
            bracket_calls: 0,
            parse_calls: 0,
            types_calls: 0,
            index_calls: 0,
            parser_diagnostic: None,
            types_diagnostic: None,
        }
    }
}

impl Passes for CountingPasses {
    fn lex(&mut self, _path: &ModulePath, _lines: Vec<String>) -> DiagnosticResult<TokenStream> {
        self.lex_calls += 1;
        DiagnosticResult::ok(TokenStream {})
    }

    fn process_indent(
        &mut self,
        _path: &ModulePath,
        _tokens: TokenStream,
    ) -> DiagnosticResult<TokenBlock> {
        self.indent_calls += 1;
        DiagnosticResult::ok(TokenBlock {})
    }

    fn process_brackets(
        &mut self,
        _path: &ModulePath,
        _block: TokenBlock,
    ) -> DiagnosticResult<BracketTree> {
        self.bracket_calls += 1;
        DiagnosticResult::ok(BracketTree {})
    }

    fn parse(&mut self, _path: &ModulePath, _tree: BracketTree) -> DiagnosticResult<ModuleP> {
        self.parse_calls += 1;
        let diagnostics = self.parser_diagnostic.take().into_iter().collect();
        DiagnosticResult::Success { value: ModuleP {}, diagnostics }
    }

    fn compute_types(
        &mut self,
        _path: &ModulePath,
        _module: &ModuleP,
    ) -> DiagnosticResult<ModuleTypesC> {
        self.types_calls += 1;
        let diagnostics = self.types_diagnostic.take().into_iter().collect();
        DiagnosticResult::Success { value: ModuleTypesC {}, diagnostics }
    }

    fn index(
        &mut self,
        _path: &ModulePath,
        _module: &ModuleP,
        _types: &ProjectTypesC,
    ) -> DiagnosticResult<ProjectIndexI> {
        self.index_calls += 1;
        DiagnosticResult::ok(ProjectIndexI {})
    }
}

#[test]
fn clean_file_parses_with_no_diagnostics() {
    let mut passes = CountingPasses::new();
    let r = parse(&mut passes, &mp(&["main"]), one_line_file("x"));
    match r {
        DiagnosticResult::Success { diagnostics, .. } => assert!(diagnostics.is_empty()),
        DiagnosticResult::Fail { .. } => panic!("expected a parsed module"),
    }
    assert!(passes.lex_calls == 1);
    assert!(passes.indent_calls == 1);
    assert!(passes.bracket_calls == 1);
    assert!(passes.parse_calls == 1);
    assert!(passes.types_calls == 1);
    assert!(passes.index_calls == 1);
}

#[test]
fn unopenable_file_fails_before_any_pass() {
    let mut passes = CountingPasses::new();
    let r = parse(&mut passes, &mp(&["main"]), FileContents::Unopenable);
    match r {
        DiagnosticResult::Success { .. } => panic!("expected a failure"),
        DiagnosticResult::Fail { diagnostics } => {
            assert!(diagnostics.len() == 1);
            assert!(diagnostics[0].text == "cannot open file");
            assert!(diagnostics[0].severity == Severity::Error);
        }
    }
    assert!(passes.lex_calls == 0);
}

#[test]
fn invalid_line_fails_with_its_number() {
    let mut passes = CountingPasses::new();
    let contents = FileContents::Lines(vec![
        SourceLine::Text("fine".to_string()),
        SourceLine::Invalid,
    ]);
    let r = parse(&mut passes, &mp(&["main"]), contents);
    match r {
        DiagnosticResult::Success { .. } => panic!("expected a failure"),
        DiagnosticResult::Fail { diagnostics } => {
            assert!(diagnostics.len() == 1);
            assert!(diagnostics[0].text == "file contained invalid UTF-8 on line 2");
        }
    }
    assert!(passes.lex_calls == 0);
}

#[test]
fn warning_pass_still_yields_parsed_module() {
    let mut passes = CountingPasses::new();
    passes.types_diagnostic = Some(message("suspicious type", Severity::Warning));
    let r = parse(&mut passes, &mp(&["main"]), one_line_file("x"));
    match r {
        DiagnosticResult::Success { diagnostics, .. } => {
            assert!(diagnostics.len() == 1);
            assert!(diagnostics[0].text == "suspicious type");
            assert!(diagnostics[0].severity == Severity::Warning);
        }
        DiagnosticResult::Fail { .. } => panic!("a warning alone must not halt the pipeline"),
    }
    assert!(passes.index_calls == 1);
}

#[test]
fn parser_error_stops_later_passes() {
    let mut passes = CountingPasses::new();
    passes.parser_diagnostic = Some(message("unexpected token", Severity::Error));
    let r = parse(&mut passes, &mp(&["main"]), one_line_file("x"));
    match r {
        DiagnosticResult::Success { .. } => panic!("an error-severity diagnostic must deny the value"),
        DiagnosticResult::Fail { diagnostics } => {
            assert!(diagnostics.len() == 1);
            assert!(diagnostics[0].text == "unexpected token");
        }
    }
    assert!(passes.parse_calls == 1);
    assert!(passes.types_calls == 0);
    assert!(passes.index_calls == 0);
}
