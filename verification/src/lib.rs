//! Error-propagation and module-orchestration core of a multi-pass compiler
//! pipeline: a diagnostic-result algebra, a phase-typed pipeline driver, and a
//! module loader with cycle detection and result caching.

pub mod decimal;
pub mod diagnostic;
pub mod emitter;
pub mod loader;
pub mod path;
pub mod pipeline;
pub mod position;
pub mod source;
pub mod table;

pub use diagnostic::Diagnostic;
pub use diagnostic::DiagnosticResult;
pub use diagnostic::ErrorMessage;
pub use diagnostic::Severity;
pub use emitter::ErrorEmitter;
pub use loader::Module;
pub use loader::ModuleLoader;
pub use path::ModulePath;
pub use pipeline::ModuleP;
pub use pipeline::Passes;
pub use pipeline::ProjectTypesC;
pub use pipeline::parse;
pub use path::QualifiedName;
pub use position::Location;
pub use position::Range;
pub use source::FileContents;
pub use source::SourceLine;
