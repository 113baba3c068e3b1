//! The diagnostic substrate: severities, location contexts, error messages,
//! and the `DiagnosticResult` algebra that carries zero or more diagnostics of
//! mixed severity beside an optional success value.

use vstd::prelude::*;
use crate::path::ModulePath;
use crate::position::Range;

verus! {

/// How serious a diagnostic is. Any diagnostic at `Error` severity is fatal
/// for pipeline continuation once a `deny` step observes it.
#[derive(Debug, Clone, Copy, PartialEq, Eq, Structural, PartialOrd, Ord)]
pub enum Severity {
    Warning,
    Error,
}

/// Location context of a diagnostic: a whole file, or a range within a file.
#[derive(Debug, Clone)]
pub enum Diagnostic {
    InFile { path: ModulePath },
    AtRange { path: ModulePath, range: Range },
}

/// The mathematical value of a `Diagnostic`.
pub enum DiagnosticView {
    InFile { path: Seq<Seq<char>> },
    AtRange { path: Seq<Seq<char>>, range: Range },
}

impl View for Diagnostic {
    type V = DiagnosticView;

    open spec fn view(&self) -> DiagnosticView {
        match self {
            Diagnostic::InFile { path } => DiagnosticView::InFile { path: path@ },
            Diagnostic::AtRange { path, range } => DiagnosticView::AtRange {
                path: path@,
                range: *range,
            },
        }
    }
}

impl Diagnostic {
    /// Context naming a whole file, with no finer location.
    pub fn in_file(path: ModulePath) -> (r: Self)
        ensures
            r@ == (DiagnosticView::InFile { path: path@ }),
    {
        Diagnostic::InFile { path }
    }

    /// Context naming a range within a file.
    pub fn at_range(path: ModulePath, range: Range) -> (r: Self)
        ensures
            r@ == (DiagnosticView::AtRange { path: path@, range }),
    {
        Diagnostic::AtRange { path, range }
    }
}

/// One reported problem: its text, its severity, and its location context.
#[derive(Debug, Clone)]
pub struct ErrorMessage {
    pub text: String,
    pub severity: Severity,
    pub context: Diagnostic,
}

/// The mathematical value of an `ErrorMessage`.
pub struct MessageView {
    pub text: Seq<char>,
    pub severity: Severity,
    pub context: DiagnosticView,
}

impl View for ErrorMessage {
    type V = MessageView;

    open spec fn view(&self) -> MessageView {
        MessageView { text: self.text@, severity: self.severity, context: self.context@ }
    }
}

impl ErrorMessage {
    pub fn new(text: String, severity: Severity, context: Diagnostic) -> (r: Self)
        ensures
            r@ == (MessageView { text: text@, severity, context: context@ }),
    {
        Self { text, severity, context }
    }
}

/// The views of a sequence of owned messages.
pub open spec fn msgs_view(v: Seq<ErrorMessage>) -> Seq<MessageView> {
    v.map_values(|m: ErrorMessage| m@)
}

pub proof fn lemma_msgs_view_concat(a: Seq<ErrorMessage>, b: Seq<ErrorMessage>)
    ensures
        msgs_view(a + b) == msgs_view(a) + msgs_view(b),
{
    assert(msgs_view(a + b) =~= msgs_view(a) + msgs_view(b));
}

/// Holds when some message of `log` is at `Error` severity.
pub open spec fn any_fatal(log: Seq<MessageView>) -> bool {
    exists|i: int| 0 <= i < log.len() && (#[trigger] log[i]).severity is Error
}

/// A value that may not exist, together with an ordered log of the problems
/// met while trying to produce it. Once a result is `Fail`, no composition
/// recovers a value; diagnostics only accumulate.
pub enum DiagnosticResult<T> {
    Success { value: T, diagnostics: Vec<ErrorMessage> },
    Fail { diagnostics: Vec<ErrorMessage> },
}

impl<T> DiagnosticResult<T> {
    /// The ordered log of diagnostics carried by this result.
    pub open spec fn log(self) -> Seq<MessageView> {
        match self {
            DiagnosticResult::Success { diagnostics, .. } => msgs_view(diagnostics@),
            DiagnosticResult::Fail { diagnostics } => msgs_view(diagnostics@),
        }
    }

    pub open spec fn is_ok(self) -> bool {
        self matches DiagnosticResult::Success { .. }
    }

    /// The carried value, where one exists.
    pub open spec fn value(self) -> T
        recommends
            self.is_ok(),
    {
        match self {
            DiagnosticResult::Success { value, .. } => value,
            DiagnosticResult::Fail { .. } => arbitrary(),
        }
    }

    /// Holds when some diagnostic of this result is at `Error` severity.
    pub open spec fn has_fatal(self) -> bool {
        any_fatal(self.log())
    }

    /// A successful result with an empty diagnostic log.
    pub fn ok(value: T) -> (r: Self)
        ensures
            r.is_ok(),
            r.value() == value,
            r.log() == Seq::<MessageView>::empty(),
    {
        let r = DiagnosticResult::Success { value, diagnostics: Vec::new() };
        proof {
            assert(r.log() =~= Seq::<MessageView>::empty());
        }
        r
    }

    /// A failed result carrying exactly the one given message.
    pub fn fail(message: ErrorMessage) -> (r: Self)
        ensures
            !r.is_ok(),
            r.log() == seq![message@],
    {
        let ghost mv = message@;
        let mut diagnostics: Vec<ErrorMessage> = Vec::new();
        diagnostics.push(message);
        let r = DiagnosticResult::Fail { diagnostics };
        proof {
            assert(r.log() =~= seq![mv]);
        }
        r
    }

    /// The same result with `prior` diagnostics placed before its own.
    pub fn prepend_diagnostics(self, prior: Vec<ErrorMessage>) -> (r: Self)
        ensures
            r.is_ok() <==> self.is_ok(),
            self.is_ok() ==> r.value() == self.value(),
            r.log() == msgs_view(prior@) + self.log(),
    {
        let mut prior = prior;
        let ghost pv = prior@;
        match self {
            DiagnosticResult::Success { value, diagnostics } => {
                let mut diagnostics = diagnostics;
                let ghost dv = diagnostics@;
                prior.append(&mut diagnostics);
                proof {
                    lemma_msgs_view_concat(pv, dv);
                }
                DiagnosticResult::Success { value, diagnostics: prior }
            },
            DiagnosticResult::Fail { diagnostics } => {
                let mut diagnostics = diagnostics;
                let ghost dv = diagnostics@;
                prior.append(&mut diagnostics);
                proof {
                    lemma_msgs_view_concat(pv, dv);
                }
                DiagnosticResult::Fail { diagnostics: prior }
            },
        }
    }

    /// Monadic composition. A `Fail` short-circuits: the supplied function is
    /// never invoked and the original diagnostics are preserved exactly. On an
    /// `Ok`, the result is `f`'s result with this result's diagnostics placed
    /// before `f`'s.
    pub fn bind<U, F: FnOnce(T) -> DiagnosticResult<U>>(self, f: F) -> (r: DiagnosticResult<U>)
        requires
            self.is_ok() ==> call_requires(f, (self.value(),)),
        ensures
            !self.is_ok() ==> !r.is_ok() && r.log() == self.log(),
            self.is_ok() ==> exists|m: DiagnosticResult<U>|
                #[trigger] call_ensures(f, (self.value(),), m) && (r.is_ok() <==> m.is_ok()) && (
                m.is_ok() ==> r.value() == m.value()) && r.log() == self.log() + m.log(),
    {
        match self {
            DiagnosticResult::Fail { diagnostics } => DiagnosticResult::Fail { diagnostics },
            DiagnosticResult::Success { value, diagnostics } => {
                let out = f(value);
                let ghost m = out;
                out.prepend_diagnostics(diagnostics)
            },
        }
    }

    /// Applies a total, diagnostic-free transform to the carried value, if
    /// one exists; the diagnostic log is unchanged either way.
    pub fn map<U, F: FnOnce(T) -> U>(self, f: F) -> (r: DiagnosticResult<U>)
        requires
            self.is_ok() ==> call_requires(f, (self.value(),)),
        ensures
            !self.is_ok() ==> !r.is_ok() && r.log() == self.log(),
            self.is_ok() ==> r.is_ok() && r.log() == self.log() && call_ensures(
                f,
                (self.value(),),
                r.value(),
            ),
    {
        match self {
            DiagnosticResult::Fail { diagnostics } => DiagnosticResult::Fail { diagnostics },
            DiagnosticResult::Success { value, diagnostics } => DiagnosticResult::Success {
                value: f(value),
                diagnostics,
            },
        }
    }

    /// The pipeline-level policy step: if any accumulated diagnostic is at
    /// `Error` severity, the result becomes `Fail` carrying all diagnostics,
    /// even if a value existed; otherwise the result passes through unchanged,
    /// warnings included.
    pub fn deny(self) -> (r: Self)
        ensures
            r.log() == self.log(),
            r.is_ok() <==> self.is_ok() && !self.has_fatal(),
            r.is_ok() ==> r.value() == self.value(),
    {
        let ghost gs = self;
        match self {
            DiagnosticResult::Fail { diagnostics } => DiagnosticResult::Fail { diagnostics },
            DiagnosticResult::Success { value, diagnostics } => {
                let mut fatal = false;
                let n = diagnostics.len();
                for i in 0..n
                    invariant
                        n == diagnostics.len(),
                        gs.log() == msgs_view(diagnostics@),
                        fatal <==> any_fatal(gs.log().take(i as int)),
                {
                    let sev_is_err = diagnostics[i].severity == Severity::Error;
                    if sev_is_err {
                        fatal = true;
                    }
                    proof {
                        let pre = gs.log().take(i as int);
                        let cur = gs.log().take(i + 1);
                        assert(cur =~= pre.push(gs.log()[i as int]));
                        assert(gs.log()[i as int] == diagnostics@[i as int]@);
                        if sev_is_err {
                            assert(cur[i as int].severity is Error);
                        } else if any_fatal(pre) {
                            let w = choose|j: int|
                                0 <= j < pre.len() && (#[trigger] pre[j]).severity is Error;
                            assert(cur[w].severity is Error);
                        } else {
                            assert forall|j: int| 0 <= j < cur.len() implies !((#[trigger] cur[j]).severity
                                is Error) by {
                                if j < i {
                                    assert(cur[j] == pre[j]);
                                    assert(!any_fatal(pre));
                                }
                            }
                        }
                    }
                }
                proof {
                    assert(gs.log().take(n as int) =~= gs.log());
                }
                if fatal {
                    DiagnosticResult::Fail { diagnostics }
                } else {
                    DiagnosticResult::Success { value, diagnostics }
                }
            },
        }
    }
}

} // verus!
