//! Compiler errors and the diagnostic context that accumulates them.
use vstd::prelude::*;

use crate::text::push_str;

verus! {

/// A byte range of the source text.
#[derive(Debug, Clone, Copy, PartialEq, Eq, Structural)]
pub struct Span {
    pub start: usize,
    pub end: usize,
}

/// An error of one of the compiler's phases.
#[derive(Debug)]
pub enum BengalError {
    LexError { message: String, span: Span },
    ParseError { message: String, span: Span },
    SemanticError { message: String, span: Span, help: Option<String> },
    LoweringError { message: String, span: Option<Span> },
    CodegenError { message: String },
    PackageError { message: String },
    InterfaceError { message: String },
}

/// The kind word and message of an error, as it is shown: `Lex error: <message>` and so on.
pub open spec fn error_text(e: BengalError) -> Seq<char> {
    match e {
        BengalError::LexError { message, .. } => "Lex error: "@ + message@,
        BengalError::ParseError { message, .. } => "Parse error: "@ + message@,
        BengalError::SemanticError { message, .. } => "Semantic error: "@ + message@,
        BengalError::LoweringError { message, .. } => "Lowering error: "@ + message@,
        BengalError::CodegenError { message } => "Codegen error: "@ + message@,
        BengalError::PackageError { message } => "Package error: "@ + message@,
        BengalError::InterfaceError { message } => "Interface error: "@ + message@,
    }
}

/// What a diagnostic shows of an error: its message, the source span it points
/// at (if any), the label of that span, and a help text.
#[derive(Debug)]
pub struct DiagnosticParts {
    pub message: String,
    pub span: Option<Span>,
    pub label: String,
    pub help: Option<String>,
}

impl BengalError {
    /// The error as it is shown: its kind, a colon and its message.
    pub fn to_string(&self) -> (r: String)
        ensures
            r@ == error_text(*self),
    {
        let mut out = String::new();
        match self {
            BengalError::LexError { message, .. } => {
                push_str(&mut out, "Lex error: ");
                push_str(&mut out, message.as_str());
            },
            BengalError::ParseError { message, .. } => {
                push_str(&mut out, "Parse error: ");
                push_str(&mut out, message.as_str());
            },
            BengalError::SemanticError { message, .. } => {
                push_str(&mut out, "Semantic error: ");
                push_str(&mut out, message.as_str());
            },
            BengalError::LoweringError { message, .. } => {
                push_str(&mut out, "Lowering error: ");
                push_str(&mut out, message.as_str());
            },
            BengalError::CodegenError { message } => {
                push_str(&mut out, "Codegen error: ");
                push_str(&mut out, message.as_str());
            },
            BengalError::PackageError { message } => {
                push_str(&mut out, "Package error: ");
                push_str(&mut out, message.as_str());
            },
            BengalError::InterfaceError { message } => {
                push_str(&mut out, "Interface error: ");
                push_str(&mut out, message.as_str());
            },
        }
        out
    }

    /// What a diagnostic of this error shows: the message; for lexing, parsing
    /// and semantic errors their span labelled `here`, and a semantic error's
    /// help; for a lowering error its span, if any, labelled `here`; the other
    /// errors point at no span and have an empty label.
    pub fn diagnostic_parts(self) -> (r: DiagnosticParts)
        ensures
            match self {
                BengalError::LexError { message, span } | BengalError::ParseError { message, span } => r.message
                    == message && r.span == Some(span) && r.label@ == "here"@ && r.help is None,
                BengalError::SemanticError { message, span, help } => r.message == message && r.span == Some(span)
                    && r.label@ == "here"@ && r.help == help,
                BengalError::LoweringError { message, span } => r.message == message && r.span == span && (if span
                    is Some { r.label@ == "here"@ } else { r.label@ == Seq::<char>::empty() }) && r.help is None,
                BengalError::CodegenError { message }
                | BengalError::PackageError { message }
                | BengalError::InterfaceError { message } => r.message == message && r.span is None
                    && r.label@ == Seq::<char>::empty() && r.help is None,
            },
    {
        let mut here = String::new();
        push_str(&mut here, "here");
        match self {
            BengalError::LexError { message, span } => DiagnosticParts { message, span: Some(span), label: here, help: None },
            BengalError::ParseError { message, span } => DiagnosticParts { message, span: Some(span), label: here, help: None },
            BengalError::SemanticError { message, span, help } => DiagnosticParts { message, span: Some(span), label: here, help },
            BengalError::LoweringError { message, span } => {
                let label = if span.is_some() { here } else { String::new() };
                DiagnosticParts { message, span, label, help: None }
            },
            BengalError::CodegenError { message } => DiagnosticParts { message, span: None, label: String::new(), help: None },
            BengalError::PackageError { message } => DiagnosticParts { message, span: None, label: String::new(), help: None },
            BengalError::InterfaceError { message } => DiagnosticParts { message, span: None, label: String::new(), help: None },
        }
    }
}

/// The number of errors a fresh diagnostic context keeps.
pub const DEFAULT_ERROR_LIMIT: usize = 128;

/// Accumulates compilation errors, up to a limit.
pub struct DiagCtxt {
    errors: Vec<BengalError>,
    limit: usize,
}

impl View for DiagCtxt {
    /// The errors kept so far and the limit.
    type V = (Seq<BengalError>, nat);

    closed spec fn view(&self) -> (Seq<BengalError>, nat) {
        (self.errors@, self.limit as nat)
    }
}

impl DiagCtxt {
    /// A context never holds more errors than its limit, and its limit is the default one.
    #[verifier::type_invariant]
    spec fn within_limit(self) -> bool {
        &&& self.limit == DEFAULT_ERROR_LIMIT
        &&& self.errors@.len() <= self.limit
    }

    /// A diagnostic context with no errors and the default limit of 128.
    pub fn new() -> (r: DiagCtxt)
        ensures
            r@.0 == Seq::<BengalError>::empty(),
            r@.1 == DEFAULT_ERROR_LIMIT,
    {
        DiagCtxt { errors: Vec::new(), limit: DEFAULT_ERROR_LIMIT }
    }

    /// Keeps an error unless the limit has been reached; tells whether it was kept.
    pub fn emit(&mut self, err: BengalError) -> (r: bool)
        ensures
            r == (old(self)@.0.len() < old(self)@.1),
            r ==> final(self)@.0 == old(self)@.0.push(err),
            !r ==> final(self)@.0 == old(self)@.0,
            final(self)@.1 == old(self)@.1,
            final(self)@.0.len() <= final(self)@.1,
            final(self)@.1 == DEFAULT_ERROR_LIMIT,
    {
        proof { use_type_invariant(&*self); }
        if self.errors.len() >= self.limit {
            return false;
        }
        let mut errors: Vec<BengalError> = Vec::new();
        std::mem::swap(&mut errors, &mut self.errors);
        errors.push(err);
        self.errors = errors;
        true
    }

    /// The number of errors kept so far.
    pub fn error_count(&self) -> (r: usize)
        ensures
            r == self@.0.len(),
            r <= DEFAULT_ERROR_LIMIT,
    {
        proof { use_type_invariant(self); }
        self.errors.len()
    }

    /// Whether any error has been kept.
    pub fn has_errors(&self) -> (r: bool)
        ensures
            r == (self@.0.len() > 0),
    {
        self.errors.len() != 0
    }

    /// Consumes the context: `Ok(())` when no error was kept, otherwise all kept errors in order.
    pub fn finish(self) -> (r: Result<(), Vec<BengalError>>)
        ensures
            self@.0.len() == 0 ==> r is Ok,
            self@.0.len() > 0 ==> (r matches Err(errs) && errs@ == self@.0),
    {
        if self.errors.len() == 0 {
            Ok(())
        } else {
            Err(self.errors)
        }
    }

    /// Takes all kept errors, leaving the context empty with the same limit.
    pub fn take_errors(&mut self) -> (r: Vec<BengalError>)
        ensures
            r@ == old(self)@.0,
            final(self)@.0 == Seq::<BengalError>::empty(),
            final(self)@.1 == old(self)@.1,
    {
        proof { use_type_invariant(&*self); }
        let mut out: Vec<BengalError> = Vec::new();
        std::mem::swap(&mut out, &mut self.errors);
        out
    }
}

impl Default for DiagCtxt {
    fn default() -> (r: DiagCtxt)
        ensures
            r@.0 == Seq::<BengalError>::empty(),
            r@.1 == DEFAULT_ERROR_LIMIT,
    {
        DiagCtxt::new()
    }
}

/// An error together with the phase and module it arose in.
#[derive(Debug)]
pub struct PipelineError {
    pub phase: &'static str,
    pub module: String,
    pub source_code: Option<String>,
    pub source_error: BengalError,
}

impl PipelineError {
    /// An error of `phase` in `module`, with the module's source text when known.
    pub fn new(phase: &'static str, module: &str, source: Option<&str>, err: BengalError) -> (r: PipelineError)
        ensures
            r.phase == phase,
            r.module@ == module@,
            match source {
                Some(s) => r.source_code matches Some(c) && c@ == s@,
                None => r.source_code is None,
            },
            r.source_error == err,
    {
        let source_code = match source {
            Some(s) => Some(s.to_string()),
            None => None,
        };
        PipelineError { phase, module: module.to_string(), source_code, source_error: err }
    }

    /// The error as it is shown: `<phase> error in <module>: ` and the error's own text.
    pub fn to_string(&self) -> (r: String)
        ensures
            r@ == self.phase@ + " error in "@ + self.module@ + ": "@ + error_text(self.source_error),
    {
        let mut out = String::new();
        push_str(&mut out, self.phase);
        push_str(&mut out, " error in ");
        push_str(&mut out, self.module.as_str());
        push_str(&mut out, ": ");
        let inner = self.source_error.to_string();
        push_str(&mut out, inner.as_str());
        out
    }

    /// An error of `phase` that concerns the whole package (module `<package>`, no source).
    pub fn package(phase: &'static str, err: BengalError) -> (r: PipelineError)
        ensures
            r.phase == phase,
            r.module@ == seq!['<', 'p', 'a', 'c', 'k', 'a', 'g', 'e', '>'],
            r.source_code is None,
            r.source_error == err,
    {
        proof { reveal_strlit("<package>"); }
        Self::new(phase, "<package>", None, err)
    }
}

} // verus!
