//! What the translation reports: advisory diagnostics and fatal errors.

use vstd::prelude::*;

verus! {

/// Why a translation stopped.
#[derive(Clone, Copy, Debug, PartialEq, Eq, Structural)]
pub enum ErrorKind {
    /// A field that arithmetic is done on holds something other than a number.
    NotANumber,
    /// The exact arithmetic on a field's numbers leaves the range of a number.
    NumberOutOfRange,
}

/// The kinds of advisory finding; none of them stops the translation.
#[derive(Clone, Copy, Debug, PartialEq, Eq, Structural)]
pub enum DiagnosticKind {
    /// A recommended field is missing; the context says what to add.
    MissingField,
    /// A top-level field that the field table does not know; it is dropped.
    UnsupportedField,
    /// A top-level field that the field table marks deprecated; it is dropped.
    DeprecatedField,
    /// A pawn stat that the pawn stat table does not know; it is dropped.
    UnsupportedPawnStat,
    /// An enemy control that is not valid any more; it is dropped.
    InvalidEnemyControl,
    /// An elite enemy whose base is not a vanilla elite; it is rebased on
    /// itself. The context holds the declared base.
    NonVanillaEliteBase,
}

/// An advisory finding about a field (`subject`), with its context (the enemy
/// it belongs to, or advice to the author).
#[derive(Debug)]
pub struct Diagnostic {
    pub kind: DiagnosticKind,
    pub subject: String,
    pub context: String,
}

pub struct DiagnosticV {
    pub kind: DiagnosticKind,
    pub subject: Seq<char>,
    pub context: Seq<char>,
}

impl View for Diagnostic {
    type V = DiagnosticV;

    open spec fn view(&self) -> DiagnosticV {
        DiagnosticV { kind: self.kind, subject: self.subject@, context: self.context@ }
    }
}

/// The models of a list of findings.
pub open spec fn views(ds: Seq<Diagnostic>) -> Seq<DiagnosticV> {
    ds.map_values(|d: Diagnostic| d@)
}

pub open spec fn diag(kind: DiagnosticKind, subject: Seq<char>, context: Seq<char>) -> DiagnosticV {
    DiagnosticV { kind, subject, context }
}

impl Diagnostic {
    /// A finding with no context.
    pub fn about(kind: DiagnosticKind, subject: &str) -> (r: Diagnostic)
        ensures
            r@ == diag(kind, subject@, Seq::empty()),
    {
        Diagnostic { kind, subject: subject.to_string(), context: String::new() }
    }

    pub fn new(kind: DiagnosticKind, subject: &str, context: &str) -> (r: Diagnostic)
        ensures
            r@ == diag(kind, subject@, context@),
    {
        Diagnostic { kind, subject: subject.to_string(), context: context.to_string() }
    }
}

} // verus!
