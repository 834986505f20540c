//! The syntax-tree model the engine analyses.
//!
//! The tree is supplied by an external parser and is read-only for the whole
//! of an analysis run: nodes form a rooted tree, every node carries its span,
//! and function-like nodes additionally expose whether an explicit
//! return-type annotation is present.

use vstd::prelude::*;

use crate::diagnostics::Span;

verus! {

/// The attributes a rule can observe of a function-like node: its own span
/// (covering the declaration, not just the body), whether an explicit
/// return-type annotation is present, and the nodes of its body.
pub struct Function {
    pub span: Span,
    pub has_return_type: bool,
    pub body: Vec<Node>,
}

/// One syntax-tree node, tagged by kind.
///
/// `Function` covers classic function declarations and expressions. `Arrow`
/// covers arrow-function expressions, which the parser routes as a kind of
/// their own, not through the classic function callback. Every other shape
/// is `Other`, which carries only its span and its children and is traversed
/// through without a callback.
pub enum Node {
    Function(Function),
    Arrow(Function),
    Other(Span, Vec<Node>),
}

/// The root of a parsed module: its span and its top-level nodes in source
/// order.
pub struct Module {
    pub span: Span,
    pub body: Vec<Node>,
}

/// The span starts of `n` and all its descendants, in pre-order: parent
/// before children, children in source order. This is the order in which a
/// walk visits the nodes.
pub open spec fn node_span_starts(n: Node) -> Seq<int>
    decreases n,
{
    match n {
        Node::Function(f) => seq![f.span.start as int] + nodes_span_starts(f.body@),
        Node::Arrow(a) => seq![a.span.start as int] + nodes_span_starts(a.body@),
        Node::Other(span, children) => seq![span.start as int] + nodes_span_starts(children@),
    }
}

/// The pre-order span starts of a sequence of sibling nodes.
pub open spec fn nodes_span_starts(ns: Seq<Node>) -> Seq<int>
    decreases ns,
{
    if ns.len() == 0 {
        Seq::<int>::empty()
    } else {
        node_span_starts(ns[0]) + nodes_span_starts(ns.subrange(1, ns.len() as int))
    }
}

/// Whether `n` or any of its descendants is a classic function node.
pub open spec fn node_has_function(n: Node) -> bool
    decreases n,
{
    match n {
        Node::Function(_f) => true,
        Node::Arrow(a) => nodes_have_function(a.body@),
        Node::Other(_span, children) => nodes_have_function(children@),
    }
}

/// Whether any node of `ns`, or any descendant of one, is a classic
/// function node.
pub open spec fn nodes_have_function(ns: Seq<Node>) -> bool
    decreases ns,
{
    if ns.len() == 0 {
        false
    } else {
        node_has_function(ns[0]) || nodes_have_function(ns.subrange(1, ns.len() as int))
    }
}

} // verus!
