//! Structured errors. Every stage of the pipeline fails fast with a
//! `Diagnostic` carrying the phase, an error kind, a message, and the
//! source position of the offending text.

use vstd::prelude::*;
use crate::numtext::{dec_digits, u64_to_string};

verus! {

/// The stage of the pipeline that produced a diagnostic.
#[derive(Clone, Copy, PartialEq, Eq, Structural, Debug)]
pub enum Phase {
    Lex,
    Parse,
    Eval,
}

/// The taxonomy of errors the pipeline can report.
#[derive(Clone, Copy, PartialEq, Eq, Structural, Debug)]
pub enum ErrKind {
    LexError,
    ParseError,
    UndefinedVariable,
    ImmutableAssignment,
    TypeMismatch,
    ArityMismatch,
    NativeOperationFailure,
    SerializationError,
}

/// A structured error: phase, kind, human-readable message, and the
/// source position (one-based line and column) it refers to.
#[derive(Debug)]
pub struct Diagnostic {
    pub phase: Phase,
    pub kind: ErrKind,
    pub message: String,
    pub line: u64,
    pub column: u64,
}

/// The rendered name of a phase.
pub open spec fn spec_phase_text(p: Phase) -> Seq<char> {
    match p {
        Phase::Lex => "lex"@,
        Phase::Parse => "parse"@,
        Phase::Eval => "evaluate"@,
    }
}

/// The rendered name of an error kind.
pub open spec fn spec_kind_text(k: ErrKind) -> Seq<char> {
    match k {
        ErrKind::LexError => "lexical error"@,
        ErrKind::ParseError => "parse error"@,
        ErrKind::UndefinedVariable => "undefined variable"@,
        ErrKind::ImmutableAssignment => "assignment to immutable binding"@,
        ErrKind::TypeMismatch => "type mismatch"@,
        ErrKind::ArityMismatch => "wrong number of arguments"@,
        ErrKind::NativeOperationFailure => "native operation failure"@,
        ErrKind::SerializationError => "serialization error"@,
    }
}

/// The full rendering of a diagnostic: phase, position, kind, message.
pub open spec fn spec_render(d: Diagnostic) -> Seq<char> {
    spec_phase_text(d.phase) + " phase, line "@ + dec_digits(d.line as nat) + ", column "@
        + dec_digits(d.column as nat) + ": "@ + spec_kind_text(d.kind) + ": "@ + d.message@
}

impl Diagnostic {
    pub fn new(phase: Phase, kind: ErrKind, message: String, line: u64, column: u64) -> (d:
        Diagnostic)
        ensures
            d.phase == phase,
            d.kind == kind,
            d.message == message,
            d.line == line,
            d.column == column,
    {
        Diagnostic { phase, kind, message, line, column }
    }

    /// The rendered name of this diagnostic's phase.
    pub fn phase_text(&self) -> (r: &'static str)
        ensures
            r@ == spec_phase_text(self.phase),
    {
        match self.phase {
            Phase::Lex => "lex",
            Phase::Parse => "parse",
            Phase::Eval => "evaluate",
        }
    }

    /// The rendered name of this diagnostic's kind.
    pub fn kind_text(&self) -> (r: &'static str)
        ensures
            r@ == spec_kind_text(self.kind),
    {
        match self.kind {
            ErrKind::LexError => "lexical error",
            ErrKind::ParseError => "parse error",
            ErrKind::UndefinedVariable => "undefined variable",
            ErrKind::ImmutableAssignment => "assignment to immutable binding",
            ErrKind::TypeMismatch => "type mismatch",
            ErrKind::ArityMismatch => "wrong number of arguments",
            ErrKind::NativeOperationFailure => "native operation failure",
            ErrKind::SerializationError => "serialization error",
        }
    }

    /// Renders the diagnostic as a single line naming the phase, the
    /// position, the kind, and the message, so a caller can present it
    /// without re-deriving any part.
    pub fn render(&self) -> (r: String)
        ensures
            r@ == spec_render(*self),
    {
        let mut s: String = self.phase_text().to_owned();
        s = s.concat(" phase, line ");
        s = s.concat(u64_to_string(self.line).as_str());
        s = s.concat(", column ");
        s = s.concat(u64_to_string(self.column).as_str());
        s = s.concat(": ");
        s = s.concat(self.kind_text());
        s = s.concat(": ");
        s = s.concat(self.message.as_str());
        proof {
            assert(s@ =~= spec_render(*self));
        }
        s
    }
}

} // verus!
