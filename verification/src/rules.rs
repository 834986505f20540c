//! The pluggable checks and the interface they implement.

pub mod explicit_function_return_type;

use vstd::prelude::*;

use crate::ast::Module;
use crate::diagnostics::Context;
use crate::diagnostics::DiagRecord;

verus! {

/// One pluggable check: constructed fresh per lint run and invoked once
/// against the root of the tree.
///
/// `module_report` is the rule's specification: exactly the sequence of
/// diagnostics the rule appends for a given module, in the order it finds
/// them. It depends on the module alone, so a run is deterministic.
pub trait LintRule: Sized {
    spec fn module_report(m: Module) -> Seq<DiagRecord>;

    /// A ready-to-use instance; construction cannot fail and has no side
    /// effect.
    fn new() -> (rule: Box<Self>);

    /// Run the check over `module`, appending one diagnostic per violation
    /// found, in discovery order, to `context`. The tree itself is never
    /// changed, and nothing already in `context` is touched.
    fn lint_module(&self, context: &mut Context, module: &Module)
        ensures
            final(context)@ == old(context)@ + Self::module_report(*module),
    ;
}

} // verus!
