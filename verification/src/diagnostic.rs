//! Diagnostics: a code, a severity, a message, optional candidates and an
//! optional source location.

use vstd::prelude::*;

use crate::ids::IntoText;
use crate::source::SourceLocation;

verus! {

/// How serious a diagnostic is.
#[derive(Clone, Copy, Debug, Eq, PartialEq)]
pub enum DiagnosticSeverity {
    Error,
    Warning,
}

/// One finding reported to the user.
#[derive(Clone, Debug, Eq, PartialEq)]
pub struct Diagnostic {
    pub code: String,
    pub severity: DiagnosticSeverity,
    pub message: String,
    pub candidates: Vec<String>,
    pub location: Option<Box<SourceLocation>>,
}

impl Diagnostic {
    /// An error with the given code and message, no candidates and no
    /// location.
    pub fn error<C: IntoText, M: IntoText>(code: C, message: M) -> (d: Diagnostic)
        ensures
            d.code@ == code.text_view(),
            d.severity == DiagnosticSeverity::Error,
            d.message@ == message.text_view(),
            d.candidates@.len() == 0,
            d.location is None,
    {
        Diagnostic {
            code: code.into_text(),
            severity: DiagnosticSeverity::Error,
            message: message.into_text(),
            candidates: Vec::new(),
            location: None,
        }
    }

    /// A warning with the given code and message, no candidates and no
    /// location.
    pub fn warning<C: IntoText, M: IntoText>(code: C, message: M) -> (d: Diagnostic)
        ensures
            d.code@ == code.text_view(),
            d.severity == DiagnosticSeverity::Warning,
            d.message@ == message.text_view(),
            d.candidates@.len() == 0,
            d.location is None,
    {
        Diagnostic {
            code: code.into_text(),
            severity: DiagnosticSeverity::Warning,
            message: message.into_text(),
            candidates: Vec::new(),
            location: None,
        }
    }

    /// The same diagnostic, attached to `location`.
    pub fn with_location(self, location: SourceLocation) -> (d: Diagnostic)
        ensures
            d.code == self.code,
            d.severity == self.severity,
            d.message == self.message,
            d.candidates == self.candidates,
            d.location == Some(Box::new(location)),
    {
        let mut d = self;
        d.location = Some(Box::new(location));
        d
    }

    /// The same diagnostic, with its candidates replaced by `candidates`.
    pub fn with_candidates(self, candidates: Vec<String>) -> (d: Diagnostic)
        ensures
            d.code == self.code,
            d.severity == self.severity,
            d.message == self.message,
            d.candidates == candidates,
            d.location == self.location,
    {
        let mut d = self;
        d.candidates = candidates;
        d
    }

    /// A copy of this diagnostic.
    pub fn duplicate(&self) -> (d: Diagnostic)
        ensures
            d.code == self.code,
            d.severity == self.severity,
            d.message == self.message,
            d.candidates@ == self.candidates@,
            d.location == self.location,
    {
        let location = match &self.location {
            Some(l) => Some(Box::new(l.duplicate())),
            None => None,
        };
        Diagnostic {
            code: self.code.clone(),
            severity: self.severity,
            message: self.message.clone(),
            candidates: crate::text::duplicate_strings(&self.candidates),
            location,
        }
    }

    /// Whether this diagnostic is an error.
    pub fn is_error(&self) -> (r: bool)
        ensures
            r == (self.severity == DiagnosticSeverity::Error),
    {
        match self.severity {
            DiagnosticSeverity::Error => true,
            DiagnosticSeverity::Warning => false,
        }
    }
}

} // verus!
