//! Diagnostics and the per-run accumulator.
//!
//! A rule reports findings only by appending [`Diagnostic`] values to a
//! [`Context`]; the driver reads the accumulated sequence once every rule
//! has finished.

use vstd::prelude::*;

verus! {

/// A source-location range: byte offsets into the analysed text.
///
/// Spans are produced by the parser that supplies the tree; the engine never
/// computes with them and only attaches them to diagnostics for reporting.
#[derive(Clone, Copy, PartialEq, Eq, Structural, Debug)]
pub struct Span {
    pub start: u32,
    pub end: u32,
}

/// The mathematical content of one diagnostic: rule code, message and the
/// span it is anchored at.
#[verifier::ext_equal]
pub ghost struct DiagRecord {
    pub code: Seq<char>,
    pub message: Seq<char>,
    pub span: Span,
}

/// One reported rule violation: a rule code, a human-readable message and
/// the span of the offending node. Immutable once created.
#[derive(Debug)]
pub struct Diagnostic {
    pub code: String,
    pub message: String,
    pub span: Span,
}

impl View for Diagnostic {
    type V = DiagRecord;

    open spec fn view(&self) -> DiagRecord {
        DiagRecord { code: self.code@, message: self.message@, span: self.span }
    }
}

/// The per-run diagnostic accumulator handed to every rule invocation.
///
/// Appending is the only mutation: a diagnostic is never edited or removed
/// once recorded, so the view only ever grows at the end.
pub struct Context {
    diagnostics: Vec<Diagnostic>,
}

impl View for Context {
    type V = Seq<DiagRecord>;

    closed spec fn view(&self) -> Seq<DiagRecord> {
        self.diagnostics@.map(|i: int, d: Diagnostic| d@)
    }
}

impl Context {
    /// A fresh, empty accumulator.
    pub fn new() -> (c: Context)
        ensures
            c@ == Seq::<DiagRecord>::empty(),
    {
        let c = Context { diagnostics: Vec::new() };
        proof {
            assert(c@ =~= Seq::<DiagRecord>::empty());
        }
        c
    }

    /// Record one violation. This is the sole channel through which a rule
    /// communicates a finding.
    pub fn add_diagnostic(&mut self, span: Span, code: &str, message: &str)
        ensures
            final(self)@ == old(self)@.push(
                DiagRecord { code: code@, message: message@, span },
            ),
    {
        let d = Diagnostic { code: code.to_owned(), message: message.to_owned(), span };
        self.diagnostics.push(d);
        proof {
            assert(self@ =~= old(self)@.push(
                DiagRecord { code: code@, message: message@, span },
            ));
        }
    }

    /// How many diagnostics have been recorded so far.
    pub fn len(&self) -> (n: usize)
        ensures
            n == self@.len(),
    {
        self.diagnostics.len()
    }

    /// Read access for the driver once the rules have finished.
    pub fn diagnostics(&self) -> (ds: &Vec<Diagnostic>)
        ensures
            ds@.len() == self@.len(),
            forall|i: int| 0 <= i < ds@.len() ==> (#[trigger] ds@[i])@ == self@[i],
    {
        &self.diagnostics
    }

    /// Empty this accumulator, handing the recorded diagnostics to the
    /// caller inside a fresh `Context`.
    pub fn take(&mut self) -> (c: Context)
        ensures
            c@ == old(self)@,
            final(self)@ == Seq::<DiagRecord>::empty(),
    {
        let mut other = Context::new();
        core::mem::swap(self, &mut other);
        other
    }

    /// Consume the accumulator, handing out the recorded diagnostics.
    pub fn into_diagnostics(self) -> (ds: Vec<Diagnostic>)
        ensures
            ds@.len() == self@.len(),
            forall|i: int| 0 <= i < ds@.len() ==> (#[trigger] ds@[i])@ == self@[i],
    {
        self.diagnostics
    }
}

} // verus!
