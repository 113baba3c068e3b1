//! The phase-typed pipeline driver: one module's source text threaded through
//! the ordered lowering passes, with every diagnostic collected in call order
//! and a `deny` policy step after every pass.
//!
//! Each pass's artifact has a distinct type, so a later pass is structurally
//! unable to consume an earlier phase's data. The passes themselves are
//! external collaborators: only their signatures are fixed here.

use vstd::prelude::*;
use crate::diagnostic::DiagnosticResult;
use crate::diagnostic::ErrorMessage;
use crate::diagnostic::any_fatal;
use crate::diagnostic::msgs_view;
use crate::path::ModulePath;
use crate::source::FileContents;
use crate::source::all_valid;
use crate::source::cannot_open_message;
use crate::source::first_invalid;
use crate::source::invalid_line_message;
use crate::source::read_lines;
use crate::table::PathTable;

verus! {

/// The flat token sequence produced by lexical analysis.
#[derive(Debug, Clone, Copy, PartialEq, Eq, Structural)]
pub struct TokenStream {}

/// The indentation-aware block structure produced from the token sequence.
#[derive(Debug, Clone, Copy, PartialEq, Eq, Structural)]
pub struct TokenBlock {}

/// The block structure with bracket pairs validated and matched.
#[derive(Debug, Clone, Copy, PartialEq, Eq, Structural)]
pub struct BracketTree {}

/// A just-parsed module: syntactically well-formed per a lenient grammar, not
/// yet type- or reference-checked.
#[derive(Debug, Clone, Copy, PartialEq, Eq, Structural)]
pub struct ModuleP {}

/// One module's computed type table, an intermediate cache entry.
#[derive(Debug, Clone, Copy, PartialEq, Eq, Structural)]
pub struct ModuleTypesC {}

/// The cross-reference index computed for a module.
#[derive(Debug, Clone, Copy, PartialEq, Eq, Structural)]
pub struct ProjectIndexI {}

/// The project-wide cache of per-module type tables, keyed by module path.
pub struct ProjectTypesC {
    table: PathTable<ModuleTypesC>,
}

impl View for ProjectTypesC {
    type V = Map<Seq<Seq<char>>, ModuleTypesC>;

    closed spec fn view(&self) -> Map<Seq<Seq<char>>, ModuleTypesC> {
        self.table@
    }
}

impl ProjectTypesC {
    pub closed spec fn wf(self) -> bool {
        self.table.wf()
    }

    pub fn new() -> (r: Self)
        ensures
            r.wf(),
            r@ == Map::<Seq<Seq<char>>, ModuleTypesC>::empty(),
    {
        Self { table: PathTable::new() }
    }

    /// Stores one module's type table, replacing any stored before.
    pub fn insert(&mut self, path: ModulePath, types: ModuleTypesC)
        requires
            old(self).wf(),
        ensures
            final(self).wf(),
            final(self)@ == old(self)@.insert(path@, types),
    {
        self.table.insert(path, types);
    }

    /// The type table stored for `path`, where one exists.
    pub fn get(&self, path: &ModulePath) -> (r: Option<&ModuleTypesC>)
        requires
            self.wf(),
        ensures
            match r {
                Some(v) => self@.contains_key(path@) && *v == self@[path@],
                None => !self@.contains_key(path@),
            },
    {
        self.table.get(path)
    }
}

/// The six ordered lowering passes, supplied by a collaborator. Each is
/// invoked at most once per module per `parse` call, with the module path and
/// the immediately preceding phase's artifact.
pub trait Passes {
    /// Lexical analysis: the module's lines into a token sequence.
    fn lex(&mut self, path: &ModulePath, lines: Vec<String>) -> DiagnosticResult<TokenStream>;

    /// Indentation normalization: the flat token sequence into blocks.
    fn process_indent(&mut self, path: &ModulePath, tokens: TokenStream) -> DiagnosticResult<
        TokenBlock,
    >;

    /// Bracket matching within the block structure.
    fn process_brackets(&mut self, path: &ModulePath, block: TokenBlock) -> DiagnosticResult<
        BracketTree,
    >;

    /// Parsing: the bracketed blocks into a syntax tree.
    fn parse(&mut self, path: &ModulePath, tree: BracketTree) -> DiagnosticResult<ModuleP>;

    /// Type computation over the just-parsed module.
    fn compute_types(&mut self, path: &ModulePath, module: &ModuleP) -> DiagnosticResult<
        ModuleTypesC,
    >;

    /// Cross-reference indexing from the syntax tree and the type cache.
    fn index(&mut self, path: &ModulePath, module: &ModuleP, types: &ProjectTypesC)
        -> DiagnosticResult<ProjectIndexI>;
}

/// The policy step between passes: the diagnostics accumulated by earlier
/// passes are placed before the latest pass's own, and any `Error`-severity
/// diagnostic among them all ends the chain before the next pass could run.
pub fn gate<T>(prior: Vec<ErrorMessage>, result: DiagnosticResult<T>) -> (r: DiagnosticResult<T>)
    ensures
        r.log() == msgs_view(prior@) + result.log(),
        r.is_ok() <==> result.is_ok() && !any_fatal(msgs_view(prior@) + result.log()),
        r.is_ok() ==> r.value() == result.value(),
{
    result.prepend_diagnostics(prior).deny()
}

/// Drives one module through the six ordered passes: reading failures yield
/// exactly the single fatal diagnostic of `read_lines`; afterwards, each
/// pass's result is gated, so a returned value is only ever accompanied by
/// diagnostics below `Error` severity. The type table and index are computed
/// as a validation gate; the advertised output is the parsed module.
pub fn parse<P: Passes>(passes: &mut P, path: &ModulePath, contents: FileContents) -> (r:
    DiagnosticResult<ModuleP>)
    ensures
        contents is Unopenable ==> !r.is_ok() && r.log() == seq![cannot_open_message(path@)],
        contents matches FileContents::Lines(ls) ==> (!all_valid(ls@) ==> !r.is_ok() && r.log()
            == seq![invalid_line_message(path@, (first_invalid(ls@) + 1) as nat)]),
        r.is_ok() ==> !any_fatal(r.log()),
        r.is_ok() ==> (contents matches FileContents::Lines(ls) && all_valid(ls@)),
{
    let lines_result = read_lines(path, contents);
    let (lines, diags) = match lines_result {
        DiagnosticResult::Success { value, diagnostics } => (value, diagnostics),
        DiagnosticResult::Fail { diagnostics } => {
            return DiagnosticResult::Fail { diagnostics };
        },
    };

    let staged = passes.lex(path, lines);
    let (tokens, diags) = match gate(diags, staged) {
        DiagnosticResult::Success { value, diagnostics } => (value, diagnostics),
        DiagnosticResult::Fail { diagnostics } => {
            return DiagnosticResult::Fail { diagnostics };
        },
    };

    let staged = passes.process_indent(path, tokens);
    let (block, diags) = match gate(diags, staged) {
        DiagnosticResult::Success { value, diagnostics } => (value, diagnostics),
        DiagnosticResult::Fail { diagnostics } => {
            return DiagnosticResult::Fail { diagnostics };
        },
    };

    let staged = passes.process_brackets(path, block);
    let (tree, diags) = match gate(diags, staged) {
        DiagnosticResult::Success { value, diagnostics } => (value, diagnostics),
        DiagnosticResult::Fail { diagnostics } => {
            return DiagnosticResult::Fail { diagnostics };
        },
    };

    let staged = passes.parse(path, tree);
    let (module, diags) = match gate(diags, staged) {
        DiagnosticResult::Success { value, diagnostics } => (value, diagnostics),
        DiagnosticResult::Fail { diagnostics } => {
            return DiagnosticResult::Fail { diagnostics };
        },
    };

    let staged = passes.compute_types(path, &module);
    let (types, diags) = match gate(diags, staged) {
        DiagnosticResult::Success { value, diagnostics } => (value, diagnostics),
        DiagnosticResult::Fail { diagnostics } => {
            return DiagnosticResult::Fail { diagnostics };
        },
    };

    let mut project_types = ProjectTypesC::new();
    project_types.insert(path.clone(), types);

    let staged = passes.index(path, &module, &project_types);
    match gate(diags, staged) {
        DiagnosticResult::Success { value: _, diagnostics } => DiagnosticResult::Success {
            value: module,
            diagnostics,
        },
        DiagnosticResult::Fail { diagnostics } => DiagnosticResult::Fail { diagnostics },
    }
}

} // verus!
