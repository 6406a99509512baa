//! The fatal diagnostics of a compilation.

use vstd::prelude::*;
use crate::ast::Span;

verus! {

/// Everything that can stop a compilation. All errors are fatal: the pipeline
/// stops at the first one and produces no output.
#[derive(Clone, Copy, PartialEq, Eq, Structural, Debug)]
pub enum ErrorKind {
    /// A local label (declaration or use) appeared before any global label
    /// opened a block.
    NoParentLabel,
    /// A local-label reference was resolved while no block was active during
    /// emission.
    LocalLabelOutsideBlock,
    /// A global or local label was referenced but never declared in the
    /// relevant scope.
    UndefinedLabel,
    /// A dereference targeted a tape address not yet written in the
    /// single-pass emission order.
    UnresolvedCompileTimeDeref,
    /// A write would exceed the configured tape capacity.
    TapeOverflow,
}

/// A fatal diagnostic: what went wrong and where in the source.
#[derive(Clone, Copy, PartialEq, Eq, Structural, Debug)]
pub struct CompileError {
    pub kind: ErrorKind,
    pub span: Span,
}

impl CompileError {
    pub fn new(kind: ErrorKind, span: Span) -> (r: CompileError)
        ensures
            r == (CompileError { kind, span }),
    {
        CompileError { kind, span }
    }

    /// A short human-readable description of the error kind.
    pub fn message(&self) -> (r: &'static str)
        ensures
            self.kind == ErrorKind::NoParentLabel ==> r@ == "no parent label"@,
            self.kind == ErrorKind::LocalLabelOutsideBlock ==> r@
                == "local label used in global location"@,
            self.kind == ErrorKind::UndefinedLabel ==> r@ == "label used but not defined"@,
            self.kind == ErrorKind::UnresolvedCompileTimeDeref ==> r@
                == "cannot be dereferenced, at least not at compile time"@,
            self.kind == ErrorKind::TapeOverflow ==> r@ == "tape size exceeded"@,
    {
        match self.kind {
            ErrorKind::NoParentLabel => "no parent label",
            ErrorKind::LocalLabelOutsideBlock => "local label used in global location",
            ErrorKind::UndefinedLabel => "label used but not defined",
            ErrorKind::UnresolvedCompileTimeDeref => (
            "cannot be dereferenced, at least not at compile time"
            ),
            ErrorKind::TapeOverflow => "tape size exceeded",
        }
    }
}

} // verus!
